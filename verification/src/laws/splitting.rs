//! A piece that is cut and put together again.

use crate::grid::PrimitiveBox;
use crate::shape::{units_above, units_from, ShapeView};
use vstd::prelude::*;

verus! {

/// A cut parts the units: each unit lies strictly above the line or not.
pub proof fn lemma_split_parts(units: Seq<PrimitiveBox>, y: int)
    ensures
        units_above(units, y).len() + units_from(units, y).len() == units.len(),
        units_from(units, y).to_multiset().add(units_above(units, y).to_multiset()) == units.to_multiset(),
    decreases units.len(),
{
    reveal(Seq::filter);
    if units.len() == 0 {
        assert(units_above(units, y) =~= units);
        assert(units_from(units, y) =~= units);
        assert(units.to_multiset().add(units.to_multiset()) =~= units.to_multiset()) by {
            units.to_multiset_ensures();
        }
    } else {
        let rest = units.drop_last();
        let last = units.last();
        lemma_split_parts(rest, y);
        assert(units == rest.push(last));
        vstd::seq_lib::to_multiset_build(rest, last);
        if last.y < y {
            assert(units_above(units, y) == units_above(rest, y).push(last));
            assert(units_from(units, y) == units_from(rest, y));
            vstd::seq_lib::to_multiset_build(units_above(rest, y), last);
        } else {
            assert(units_from(units, y) == units_from(rest, y).push(last));
            assert(units_above(units, y) == units_above(rest, y));
            vstd::seq_lib::to_multiset_build(units_from(rest, y), last);
        }
        assert(units_from(units, y).to_multiset().add(units_above(units, y).to_multiset())
            =~= units.to_multiset());
    }
}

/// The position of a unit.
pub open spec fn position(unit: PrimitiveBox) -> (int, int) {
    (unit.x as int, unit.y as int)
}

/// Cutting a piece along a line and merging the part that was taken out
/// back into what was left gives the units that the piece had again, as
/// a multiset: nothing is lost, nothing is added, only the order may differ.
/// The same holds of the positions alone.
pub proof fn lemma_split_then_merge(piece: ShapeView, y: int)
    ensures
        (ShapeView { units: units_from(piece.units, y), pivot: piece.pivot }).merged(
            ShapeView { units: units_above(piece.units, y), pivot: piece.pivot },
        ).units.to_multiset() == piece.units.to_multiset(),
        (units_from(piece.units, y) + units_above(piece.units, y)).len() == piece.units.len(),
        (units_from(piece.units, y) + units_above(piece.units, y)).map_values(
            |u: PrimitiveBox| position(u),
        ).to_multiset() == piece.units.map_values(|u: PrimitiveBox| position(u)).to_multiset(),
{
    let kept = units_from(piece.units, y);
    let taken = units_above(piece.units, y);
    lemma_split_parts(piece.units, y);
    vstd::seq_lib::lemma_multiset_commutative(kept, taken);
    lemma_same_units_same_positions(kept + taken, piece.units);
}

/// Units that agree as multisets agree in their positions as multisets.
pub proof fn lemma_same_units_same_positions(a: Seq<PrimitiveBox>, b: Seq<PrimitiveBox>)
    requires
        a.to_multiset() == b.to_multiset(),
    ensures
        a.map_values(|u: PrimitiveBox| position(u)).to_multiset() == b.map_values(
            |u: PrimitiveBox| position(u),
        ).to_multiset(),
{
    lemma_map_keeps_multisets_equal(a, b, |u: PrimitiveBox| position(u));
}

/// Sequences that agree as multisets still do so after the same function
/// has been applied to each of their elements.
pub proof fn lemma_map_keeps_multisets_equal<B>(
    a: Seq<PrimitiveBox>,
    b: Seq<PrimitiveBox>,
    f: spec_fn(PrimitiveBox) -> B,
)
    requires
        a.to_multiset() == b.to_multiset(),
    ensures
        a.map_values(f).to_multiset() == b.map_values(f).to_multiset(),
    decreases a.len(),
{
    a.to_multiset_ensures();
    b.to_multiset_ensures();
    if a.len() == 0 {
        assert(b.len() == 0);
        assert(a.map_values(f) =~= b.map_values(f));
    } else {
        let last = a.last();
        assert(a.to_multiset().count(last) > 0) by {
            assert(a.contains(last));
        }
        assert(b.contains(last));
        let j = choose|j: int| 0 <= j < b.len() && b[j] == last;
        let a_rest = a.drop_last();
        let b_rest = b.remove(j);
        assert(a_rest =~= a.remove(a.len() - 1));
        vstd::seq_lib::to_multiset_remove(a, a.len() - 1);
        vstd::seq_lib::to_multiset_remove(b, j);
        lemma_map_keeps_multisets_equal(a_rest, b_rest, f);
        let pa = a.map_values(f);
        let pb = b.map_values(f);
        assert(pa.remove(a.len() - 1) =~= a_rest.map_values(f));
        assert(pb.remove(j) =~= b_rest.map_values(f));
        vstd::seq_lib::to_multiset_remove(pa, a.len() - 1);
        vstd::seq_lib::to_multiset_remove(pb, j);
        assert(pa[a.len() - 1] == pb[j]);
        assert(pa.to_multiset() =~= pa.remove(a.len() - 1).to_multiset().insert(pa[a.len() - 1])) by {
            pa.to_multiset_ensures();
        }
        assert(pb.to_multiset() =~= pb.remove(j).to_multiset().insert(pb[j])) by {
            pb.to_multiset_ensures();
        }
    }
}

} // verus!
