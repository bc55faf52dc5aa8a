//! The effect of committed moves on a grid, as a model over sequences.

use vstd::prelude::*;
use crate::material::{Cell, Material};

verus! {

/// The materials of a sequence of cells, position by position.
pub open spec fn materials(cells: Seq<Cell>) -> Seq<Material> {
    cells.map_values(|c: Cell| c.material)
}

/// Whether a move from `src` to `dst` is a swap: sand sinking into water.
pub open spec fn is_swap(cells: Seq<Cell>, src: int, dst: int) -> bool {
    cells[src].material == Material::Sand && cells[dst].material == Material::Water
}

/// The grid after the move from `src` to `dst` is applied: a swap where sand
/// meets water, else the destination takes the source's cell and the source
/// becomes empty.
pub open spec fn apply_move(cells: Seq<Cell>, src: int, dst: int) -> Seq<Cell> {
    if is_swap(cells, src, dst) {
        cells.update(dst, cells[src]).update(src, cells[dst])
    } else {
        cells.update(dst, cells[src]).update(src, Cell::spec_of(Material::Empty))
    }
}

/// The grid after the moves `(source, destination)` are applied in order.
pub open spec fn apply_moves(cells: Seq<Cell>, moves: Seq<(usize, usize)>) -> Seq<Cell>
    decreases moves.len(),
{
    if moves.len() == 0 {
        cells
    } else {
        apply_move(
            apply_moves(cells, moves.drop_last()),
            moves.last().0 as int,
            moves.last().1 as int,
        )
    }
}

/// A move into an empty, well-formed destination keeps the multiset of
/// materials.
pub proof fn lemma_move_into_empty_conserves(cells: Seq<Cell>, src: int, dst: int)
    requires
        0 <= src < cells.len(),
        0 <= dst < cells.len(),
        src != dst,
        cells[dst] == Cell::spec_of(Material::Empty),
    ensures
        materials(apply_move(cells, src, dst)).to_multiset() == materials(cells).to_multiset(),
{
    broadcast use {
        vstd::multiset::group_multiset_axioms,
        vstd::seq_lib::group_to_multiset_ensures,
    };

    let m = materials(cells);
    let moved = m.update(dst, m[src]);
    let after = moved.update(src, Material::Empty);
    assert(materials(apply_move(cells, src, dst)) =~= after);
    vstd::seq_lib::to_multiset_update(m, dst, m[src]);
    vstd::seq_lib::to_multiset_update(moved, src, Material::Empty);
    assert(after.to_multiset() =~= m.to_multiset());
}

/// A swap keeps the multiset of materials.
pub proof fn lemma_swap_conserves(cells: Seq<Cell>, src: int, dst: int)
    requires
        0 <= src < cells.len(),
        0 <= dst < cells.len(),
        is_swap(cells, src, dst),
    ensures
        materials(apply_move(cells, src, dst)).to_multiset() == materials(cells).to_multiset(),
{
    broadcast use {
        vstd::multiset::group_multiset_axioms,
        vstd::seq_lib::group_to_multiset_ensures,
    };

    let m = materials(cells);
    let moved = m.update(dst, m[src]);
    let after = moved.update(src, m[dst]);
    assert(materials(apply_move(cells, src, dst)) =~= after);
    vstd::seq_lib::to_multiset_update(m, dst, m[src]);
    vstd::seq_lib::to_multiset_update(moved, src, m[dst]);
    assert(after.to_multiset() =~= m.to_multiset());
}

/// Where sand lies on water, the move exchanges the two: afterwards the
/// destination holds the sand, the source holds the water, neither is empty,
/// and no other cell has changed.
pub proof fn lemma_sand_and_water_change_places(cells: Seq<Cell>, src: int, dst: int)
    requires
        0 <= src < cells.len(),
        0 <= dst < cells.len(),
        cells[src].material == Material::Sand,
        cells[dst].material == Material::Water,
    ensures
        apply_move(cells, src, dst).len() == cells.len(),
        apply_move(cells, src, dst)[dst] == cells[src],
        apply_move(cells, src, dst)[src] == cells[dst],
        forall|p: int|
            0 <= p < cells.len() && p != src && p != dst ==> apply_move(cells, src, dst)[p]
                == cells[p],
{
}

/// The moves name cells of a grid of `len` cells, none moves onto itself,
/// no destination and no source occurs twice, and no source is the
/// destination of an earlier move.
pub open spec fn independent(moves: Seq<(usize, usize)>, len: nat) -> bool {
    &&& forall|k: int|
        0 <= k < moves.len() ==> (#[trigger] moves[k]).0 < len && moves[k].1 < len && moves[k].0
            != moves[k].1
    &&& forall|j: int, k: int|
        0 <= j < k < moves.len() ==> (#[trigger] moves[j]).1 != (#[trigger] moves[k]).1
            && moves[j].0 != moves[k].0 && moves[j].1 != moves[k].0
}

/// Whether the cell with flat index `p` is the source or the destination of
/// one of the moves.
pub open spec fn touched(moves: Seq<(usize, usize)>, p: int) -> bool {
    exists|k: int| 0 <= k < moves.len() && ((#[trigger] moves[k]).0 == p || moves[k].1 == p)
}

/// After independent moves are committed, every destination holds the cell
/// that its chosen source held before, and every cell that is neither a
/// destination nor a chosen source is as it was: a candidate that was not
/// chosen, and is itself no destination, stays in place unchanged.
pub proof fn lemma_destinations_hold_winners(cells: Seq<Cell>, moves: Seq<(usize, usize)>)
    requires
        independent(moves, cells.len()),
    ensures
        apply_moves(cells, moves).len() == cells.len(),
        forall|k: int|
            0 <= k < moves.len() ==> apply_moves(cells, moves)[(#[trigger] moves[k]).1 as int]
                == cells[moves[k].0 as int],
        forall|p: int|
            0 <= p < cells.len() && !touched(moves, p) ==> #[trigger] apply_moves(cells, moves)[p]
                == cells[p],
    decreases moves.len(),
{
    if moves.len() > 0 {
        let earlier = moves.drop_last();
        let last = moves.last();
        let n = earlier.len() as int;
        assert(moves[n] == last);
        assert forall|k: int| 0 <= k < n implies earlier[k] == moves[k] by {}
        assert(independent(earlier, cells.len()));
        lemma_destinations_hold_winners(cells, earlier);
        let before = apply_moves(cells, earlier);
        let after = apply_moves(cells, moves);
        assert(!touched(earlier, last.0 as int)) by {
            if touched(earlier, last.0 as int) {
                let k = choose|k: int|
                    0 <= k < earlier.len() && ((#[trigger] earlier[k]).0 == last.0 || earlier[k].1
                        == last.0);
                assert(earlier[k] == moves[k]);
            }
        }
        assert(before[last.0 as int] == cells[last.0 as int]);
        assert forall|k: int| 0 <= k < moves.len() implies after[(#[trigger] moves[k]).1 as int]
            == cells[moves[k].0 as int] by {
            if k < n {
                assert(earlier[k] == moves[k]);
            }
        }
        assert forall|p: int| 0 <= p < cells.len() && !touched(moves, p) implies #[trigger] after[p]
            == cells[p] by {
            assert(p != last.0 && p != last.1);
            if touched(earlier, p) {
                let k = choose|k: int|
                    0 <= k < earlier.len() && ((#[trigger] earlier[k]).0 == p || earlier[k].1 == p);
                assert(earlier[k] == moves[k]);
            }
        }
    }
}

/// A move whose two cells no other move touches acts on them as if it were
/// the only one.
pub proof fn lemma_isolated_move(cells: Seq<Cell>, moves: Seq<(usize, usize)>, k: int)
    requires
        independent(moves, cells.len()),
        0 <= k < moves.len(),
        forall|j: int|
            0 <= j < moves.len() && j != k ==> (#[trigger] moves[j]).0 != moves[k].0 && moves[j].0
                != moves[k].1 && moves[j].1 != moves[k].0 && moves[j].1 != moves[k].1,
    ensures
        apply_moves(cells, moves)[moves[k].0 as int] == apply_move(
            cells,
            moves[k].0 as int,
            moves[k].1 as int,
        )[moves[k].0 as int],
        apply_moves(cells, moves)[moves[k].1 as int] == apply_move(
            cells,
            moves[k].0 as int,
            moves[k].1 as int,
        )[moves[k].1 as int],
    decreases moves.len(),
{
    let earlier = moves.drop_last();
    let last = moves.last();
    let n = earlier.len() as int;
    let src = moves[k].0 as int;
    let dst = moves[k].1 as int;
    assert(moves[n] == last);
    assert forall|j: int| 0 <= j < n implies earlier[j] == moves[j] by {}
    assert(independent(earlier, cells.len()));
    lemma_destinations_hold_winners(cells, earlier);
    if k == n {
        assert(!touched(earlier, src) && !touched(earlier, dst)) by {
            if touched(earlier, src) {
                let j = choose|j: int|
                    0 <= j < earlier.len() && ((#[trigger] earlier[j]).0 == src || earlier[j].1
                        == src);
                assert(earlier[j] == moves[j]);
            }
            if touched(earlier, dst) {
                let j = choose|j: int|
                    0 <= j < earlier.len() && ((#[trigger] earlier[j]).0 == dst || earlier[j].1
                        == dst);
                assert(earlier[j] == moves[j]);
            }
        }
    } else {
        assert(earlier[k] == moves[k]);
        assert forall|j: int| 0 <= j < earlier.len() && j != k implies (#[trigger] earlier[j]).0
            != earlier[k].0 && earlier[j].0 != earlier[k].1 && earlier[j].1 != earlier[k].0
            && earlier[j].1 != earlier[k].1 by {
            assert(earlier[j] == moves[j]);
        }
        lemma_isolated_move(cells, earlier, k);
    }
}

} // verus!
