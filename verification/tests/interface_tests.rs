use tinytetris::interface::{parse_ansi, parse_escaped, KeyCode};

#[test]
fn empty_buffer_has_no_keys() {
    assert_eq!(parse_ansi(&[]), Vec::<KeyCode>::new());
}

#[test]
fn arrow_sequences_are_decoded() {
    let bytes = [0x1B, b'[', b'A', 0x1B, b'[', b'B', 0x1B, b'[', b'C', 0x1B, b'[', b'D'];
    assert_eq!(
        parse_ansi(&bytes),
        vec![KeyCode::ArrowUp, KeyCode::ArrowDown, KeyCode::ArrowRight, KeyCode::ArrowLeft]
    );
}

#[test]
fn plain_bytes_are_characters() {
    assert_eq!(parse_ansi(b"kl"), vec![KeyCode::Char('k'), KeyCode::Char('l')]);
}

#[test]
fn bytes_that_are_no_characters_are_unknown() {
    assert_eq!(parse_ansi(&[0x80, b'a', 0xFF]), vec![KeyCode::Unknown, KeyCode::Char('a'), KeyCode::Unknown]);
}

#[test]
fn lone_escape_is_escape() {
    assert_eq!(parse_ansi(&[0x1B]), vec![KeyCode::Esc]);
}

#[test]
fn escape_before_another_key_is_escape_then_that_key() {
    assert_eq!(parse_ansi(&[0x1B, b'x']), vec![KeyCode::Esc, KeyCode::Char('x')]);
}

#[test]
fn cut_off_sequence_is_escape_then_bracket() {
    assert_eq!(parse_ansi(&[0x1B, b'[']), vec![KeyCode::Esc, KeyCode::Char('[')]);
}

#[test]
fn sequence_that_names_no_arrow_is_read_byte_by_byte() {
    assert_eq!(
        parse_ansi(&[0x1B, b'[', b'Z']),
        vec![KeyCode::Esc, KeyCode::Char('['), KeyCode::Char('Z')]
    );
}

#[test]
fn escape_twice_then_arrow() {
    assert_eq!(
        parse_ansi(&[0x1B, 0x1B, b'[', b'D', b'q']),
        vec![KeyCode::Esc, KeyCode::ArrowLeft, KeyCode::Char('q')]
    );
}

#[test]
fn parse_escaped_moves_the_cursor_past_an_arrow() {
    let bytes = [b'a', 0x1B, b'[', b'C', b'b'];
    let mut cursor = 1;
    assert_eq!(parse_escaped(&bytes, &mut cursor), KeyCode::ArrowRight);
    assert_eq!(cursor, 4);
}

#[test]
fn parse_escaped_moves_the_cursor_by_one_otherwise() {
    let bytes = [0x1B, b'[', b'x'];
    let mut cursor = 0;
    assert_eq!(parse_escaped(&bytes, &mut cursor), KeyCode::Esc);
    assert_eq!(cursor, 1);

    let bytes = [0x1B, b'O', b'A'];
    let mut cursor = 0;
    assert_eq!(parse_escaped(&bytes, &mut cursor), KeyCode::Esc);
    assert_eq!(cursor, 1);

    let bytes = [b'z', 0x1B];
    let mut cursor = 1;
    assert_eq!(parse_escaped(&bytes, &mut cursor), KeyCode::Esc);
    assert_eq!(cursor, 2);
}

#[test]
fn key_names() {
    assert_eq!(KeyCode::ArrowUp.name(), "Up");
    assert_eq!(KeyCode::ArrowDown.name(), "Down");
    assert_eq!(KeyCode::ArrowLeft.name(), "Left");
    assert_eq!(KeyCode::ArrowRight.name(), "Right");
    assert_eq!(KeyCode::Esc.name(), "Esc");
    assert_eq!(KeyCode::Unknown.name(), "Unknown");
}

#[test]
fn name_of_a_character_key_is_the_character() {
    assert_eq!(KeyCode::Char('k').name(), "k");
    assert_eq!(KeyCode::Char('U').name(), "U");
    assert_ne!(KeyCode::Char('U').name(), "Up");
}
