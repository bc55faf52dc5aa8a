//! A whole tick, and what a tick and a commit do to the grid.

use vstd::prelude::*;
use crate::commit::{
    apply_moves, independent, lemma_destinations_hold_winners, lemma_isolated_move, materials,
    touched,
};
use crate::material::{Material, MovementKind};
use crate::world::{lemma_flat_index_in_range, SandWorld};

verus! {

impl SandWorld {
    /// Whether the cell with flat index `src` may move to the destination
    /// of one of the moves.
    pub open spec fn competes(&self, moves: Seq<(usize, usize)>, src: int) -> bool {
        exists|k: int| 0 <= k < moves.len() && self.allows(src, (#[trigger] moves[k]).1 as int)
    }

    /// Moves that one tick may commit on this grid, in their order: each is
    /// one that the first applicable rule of its source allows; no
    /// destination and no source occurs twice, and no source was the
    /// destination of an earlier move; and every cell for which a rule
    /// finds a destination competes for the destination of one of them.
    pub open spec fn proposable(&self, moves: Seq<(usize, usize)>) -> bool {
        &&& independent(moves, self@.len())
        &&& forall|k: int|
            0 <= k < moves.len() ==> self.allows(
                (#[trigger] moves[k]).0 as int,
                moves[k].1 as int,
            )
        &&& forall|cx: int, cy: int|
            self.has(cx, cy) && self.first_rule(cx, cy).is_some() ==> #[trigger] self.competes(
                moves,
                self.index(cx, cy),
            )
    }

    /// One step of the simulation: the intent phase over the grid as it
    /// is, then the commit phase. Moves left pending by an earlier intent
    /// phase are dropped first, so that the moves of a tick are built
    /// afresh.
    pub fn tick(&mut self)
        requires
            old(self).wf(),
        ensures
            final(self).wf(),
            final(self).no_pending(),
            final(self).spec_width() == old(self).spec_width(),
            final(self).spec_height() == old(self).spec_height(),
            final(self).spec_brush() == old(self).spec_brush(),
            final(self).spec_density() == old(self).spec_density(),
            materials(final(self)@).to_multiset() == materials(old(self)@).to_multiset(),
            exists|moves: Seq<(usize, usize)>|
                old(self).proposable(moves) && #[trigger] apply_moves(old(self)@, moves)
                    == final(self)@,
    {
        self.discard_pending();
        self.update();
        let ghost mid = *self;
        self.commit_cells();
        proof {
            let moves = choose|moves: Seq<(usize, usize)>|
                mid.selects(moves) && #[trigger] apply_moves(mid@, moves) == final(self)@;
            mid.lemma_selection_is_proposable(moves);
            mid.lemma_proposable_same_grid(old(self), moves);
        }
    }

    /// After a commit of settled pending moves, every destination holds the
    /// cell of the candidate that was chosen for it, and every candidate
    /// that was not chosen, and is not itself a destination, is in its
    /// place as it was.
    pub proof fn lemma_commit_places_winners(&self, moves: Seq<(usize, usize)>)
        requires
            self.wf(),
            self.settled(),
            self.selects(moves),
        ensures
            forall|k: int|
                0 <= k < moves.len() ==> apply_moves(self@, moves)[(#[trigger] moves[k]).1 as int]
                    == self@[moves[k].0 as int],
            forall|k: int, i: int|
                0 <= k < moves.len() && 0 <= i < self.intents()[moves[k].1].len()
                    && self.intents()[moves[k].1][i] != moves[k].0 && !self.intents().contains_key(
                    self.intents()[moves[k].1][i],
                ) ==> apply_moves(self@, moves)[(#[trigger] self.intents()[moves[k].1][i]) as int]
                    == self@[self.intents()[moves[k].1][i] as int],
    {
        let order = self.destinations();
        let intents = self.intents();
        self.lemma_selection_is_proposable(moves);
        lemma_destinations_hold_winners(self@, moves);
        assert forall|k: int, i: int|
            0 <= k < moves.len() && 0 <= i < intents[moves[k].1].len() && intents[moves[k].1][i]
                != moves[k].0 && !intents.contains_key(intents[moves[k].1][i]) implies apply_moves(
            self@,
            moves,
        )[(#[trigger] intents[moves[k].1][i]) as int] == self@[intents[moves[k].1][i] as int] by {
            let d = moves[k].1;
            let c = intents[d][i];
            assert(order.contains(order[k]));
            assert(intents.contains_key(d));
            assert(c < self@.len());
            if touched(moves, c as int) {
                let j = choose|j: int|
                    0 <= j < moves.len() && ((#[trigger] moves[j]).0 == c || moves[j].1 == c);
                let dj = order[j];
                assert(order.contains(dj));
                assert(intents.contains_key(dj));
                let ij = choose|ij: int|
                    0 <= ij < intents[dj].len() && intents[dj][ij] == moves[j].0;
                if j != k {
                    assert(order[j] != order[k]);
                    assert(intents[dj][ij] != intents[d][i]);
                }
                assert(false);
            }
        }
    }

    /// Sand that lies on water which has nowhere to go sinks in one tick:
    /// whatever moves the tick commits, afterwards the water is where the
    /// sand was and the sand is where the water was.
    pub proof fn lemma_tick_exchanges_sand_and_water(
        &self,
        moves: Seq<(usize, usize)>,
        x: int,
        y: int,
    )
        requires
            self.grid_wf(),
            self.has(x, y),
            self.has(x, y + 1),
            self.material_at(x, y) == Material::Sand,
            self.material_at(x, y + 1) == Material::Water,
            self.first_rule(x, y + 1).is_none(),
            self.proposable(moves),
        ensures
            apply_moves(self@, moves)[self.index(x, y)] == self@[self.index(x, y + 1)],
            apply_moves(self@, moves)[self.index(x, y + 1)] == self@[self.index(x, y)],
    {
        reveal(SandWorld::allows);
        let width = self.spec_width() as int;
        let height = self.spec_height() as int;
        let s = self.index(x, y);
        let d = self.index(x, y + 1);
        lemma_flat_index_in_range(width, height, x, y);
        lemma_flat_index_in_range(width, height, x, y + 1);
        assert(self@[s].wf());
        assert(self.first_rule(x, y) == Some(MovementKind::Down));
        assert(self.competes(moves, self.index(x, y)));
        let k = choose|k: int|
            0 <= k < moves.len() && self.allows(s, (#[trigger] moves[k]).1 as int);
        assert(moves[k].1 == d);
        assert(moves[k].0 == s) by {
            let w = moves[k].0 as int;
            assert(self.allows(w, moves[k].1 as int));
            let wx = w % width;
            let wy = w / width;
            assert(self.first_rule(wx, wy) == Some(MovementKind::Down));
            lemma_flat_index_in_range(width, height, wx, wy + 1);
            vstd::arithmetic::div_mod::lemma_fundamental_div_mod(w, width);
            assert(width * wy == wy * width) by (nonlinear_arith);
        }
        assert forall|j: int| 0 <= j < moves.len() && j != k implies (#[trigger] moves[j]).0
            != moves[k].0 && moves[j].0 != moves[k].1 && moves[j].1 != moves[k].0 && moves[j].1
            != moves[k].1 by {
            assert(self.allows(moves[j].0 as int, moves[j].1 as int));
            if j < k {
                assert(moves[j].1 != moves[k].1 && moves[j].0 != moves[k].0);
            } else {
                assert(moves[k].1 != moves[j].1 && moves[k].0 != moves[j].0);
            }
        }
        lemma_isolated_move(self@, moves, k);
    }

    /// Any choice of winners among settled pending moves is a sequence of
    /// moves that a tick may commit on this grid.
    pub(crate) proof fn lemma_selection_is_proposable(&self, moves: Seq<(usize, usize)>)
        requires
            self.wf(),
            self.settled(),
            self.selects(moves),
        ensures
            self.proposable(moves),
    {
        let order = self.destinations();
        let intents = self.intents();
        assert forall|k: int| 0 <= k < moves.len() implies {
            &&& intents.contains_key(order[k])
            &&& self.allows((#[trigger] moves[k]).0 as int, moves[k].1 as int)
            &&& moves[k].0 < self@.len()
            &&& moves[k].1 < self@.len()
            &&& moves[k].0 != moves[k].1
        } by {
            let d = order[k];
            assert(moves[k].1 == d);
            assert(order.contains(d));
            assert(intents.contains_key(d));
            assert(d < self@.len());
            assert(intents[d].contains(moves[k].0));
            let i = choose|i: int| 0 <= i < intents[d].len() && intents[d][i] == moves[k].0;
            assert(self.allows(intents[d][i] as int, d as int));
            assert(intents[d][i] < self@.len());
            assert(self@[intents[d][i] as int].material != Material::Empty);
            if self@[d as int].material != Material::Empty {
                assert(i == 0);
                assert(self@[intents[d][0] as int].material == Material::Sand);
            }
        }
        assert forall|j: int, k: int| 0 <= j < k < moves.len() implies (#[trigger] moves[j]).1 != (
        #[trigger] moves[k]).1 && moves[j].0 != moves[k].0 && moves[j].1 != moves[k].0 by {
            let dj = order[j];
            let dk = order[k];
            assert(moves[j].1 == dj && moves[k].1 == dk);
            let ij = choose|i: int| 0 <= i < intents[dj].len() && intents[dj][i] == moves[j].0;
            let ik = choose|i: int| 0 <= i < intents[dk].len() && intents[dk][i] == moves[k].0;
            assert(intents[dj][ij] != intents[dk][ik]);
            assert(intents[order[k]][ik] != order[j]);
        }
        assert forall|cx: int, cy: int|
            self.has(cx, cy) && self.first_rule(cx, cy).is_some() implies #[trigger] self.competes(
            moves,
            self.index(cx, cy),
        ) by {
            assert(self.proposed(self.index(cx, cy)));
            let (d, i) = choose|d: usize, i: int|
                intents.contains_key(d) && 0 <= i < intents[d].len() && #[trigger] intents[d][i]
                    == self.index(cx, cy);
            assert(order.contains(d));
            let k = choose|k: int| 0 <= k < order.len() && order[k] == d;
            assert(moves[k].1 == d);
            assert(self.allows(intents[d][i] as int, d as int));
        }
    }

    /// What a tick may commit depends on the grid alone.
    proof fn lemma_proposable_same_grid(&self, other: &SandWorld, moves: Seq<(usize, usize)>)
        requires
            self.same_grid(other),
            self.proposable(moves),
        ensures
            other.proposable(moves),
    {
        self.lemma_allows_same_grid(other);
        assert forall|k: int| 0 <= k < moves.len() implies other.allows(
            (#[trigger] moves[k]).0 as int,
            moves[k].1 as int,
        ) by {
            assert(self.allows(moves[k].0 as int, moves[k].1 as int));
        }
        assert forall|cx: int, cy: int|
            other.has(cx, cy) && other.first_rule(cx, cy).is_some() implies
            #[trigger] other.competes(moves, other.index(cx, cy)) by {
            assert(self.first_rule(cx, cy) == other.first_rule(cx, cy));
            assert(self.competes(moves, self.index(cx, cy)));
            let k = choose|k: int|
                0 <= k < moves.len() && self.allows(
                    self.index(cx, cy),
                    (#[trigger] moves[k]).1 as int,
                );
            assert(other.allows(other.index(cx, cy), moves[k].1 as int));
        }
    }
}

} // verus!
