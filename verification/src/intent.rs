//! The intent phase: one scan of the grid, in which every cell proposes at
//! most one move, and what holds of the pending moves afterwards.

use vstd::prelude::*;
use crate::material::Material;
use crate::world::{candidates_of, flat_index, lemma_flat_index_in_range, SandWorld};

verus! {

impl SandWorld {
    /// Whether the first rule that finds a destination for the cell with
    /// flat index `src` lets it propose `dst`.
    #[verifier::opaque]
    pub open spec fn allows(&self, src: int, dst: int) -> bool {
        let x = src % (self.spec_width() as int);
        let y = src / (self.spec_width() as int);
        match self.first_rule(x, y) {
            Some(kind) => self.rule_allows(kind, x, y, dst),
            None => false,
        }
    }

    /// The pending moves are those of one intent phase over the grid as it
    /// is: no source proposed twice, every proposal is one that the source's
    /// first applicable rule allows, every source holds a material, and
    /// every destination is empty or is water with the sand above it as its
    /// one candidate.
    pub open spec fn fresh(&self) -> bool {
        let intents = self.intents();
        &&& forall|d1: usize, i1: int, d2: usize, i2: int|
            #![trigger intents[d1][i1], intents[d2][i2]]
            intents.contains_key(d1) && 0 <= i1 < intents[d1].len() && intents.contains_key(d2)
                && 0 <= i2 < intents[d2].len() && (d1 != d2 || i1 != i2) ==> intents[d1][i1]
                != intents[d2][i2]
        &&& forall|d: usize, i: int|
            intents.contains_key(d) && 0 <= i < intents[d].len() ==> self.allows(
                (#[trigger] intents[d][i]) as int,
                d as int,
            ) && self@[intents[d][i] as int].material != Material::Empty
        &&& forall|d: usize| #[trigger]
            intents.contains_key(d) ==> {
                ||| self@[d as int].material == Material::Empty
                ||| {
                    &&& self@[d as int].material == Material::Water
                    &&& intents[d].len() == 1
                    &&& intents[d][0] + self.spec_width() == d
                    &&& self@[intents[d][0] as int].material == Material::Sand
                }
            }
    }

    /// Every source of a pending move lies in a column left of `x`, or in
    /// column `x` in row `y` or below it.
    pub open spec fn scanned_before(&self, x: int, y: int) -> bool {
        let intents = self.intents();
        let width = self.spec_width() as int;
        forall|d: usize, i: int|
            intents.contains_key(d) && 0 <= i < intents[d].len() ==> {
                let s = (#[trigger] intents[d][i]) as int;
                s % width < x || (s % width == x && s / width >= y)
            }
    }

    /// The pending moves of `before` are all still pending, each in its
    /// place: destinations and candidates were only added behind them.
    pub open spec fn extends(&self, before: &SandWorld) -> bool {
        &&& before.destinations().is_prefix_of(self.destinations())
        &&& forall|d: usize| #[trigger]
            before.intents().contains_key(d) ==> self.intents().contains_key(d)
                && before.intents()[d].is_prefix_of(self.intents()[d])
    }

    /// Whether the cell with flat index `src` is a candidate of some
    /// pending destination.
    pub open spec fn proposed(&self, src: int) -> bool {
        exists|d: usize, i: int|
            self.intents().contains_key(d) && 0 <= i < self.intents()[d].len()
                && #[trigger] self.intents()[d][i] == src
    }

    /// Every cell in a column left of `x`, or in column `x` in row `y` or
    /// below it, for which one of its rules finds a destination, has
    /// proposed a move.
    pub open spec fn complete_before(&self, x: int, y: int) -> bool {
        forall|cx: int, cy: int|
            self.has(cx, cy) && (cx < x || (cx == x && cy >= y)) && self.first_rule(
                cx,
                cy,
            ).is_some() ==> #[trigger] self.proposed(self.index(cx, cy))
    }

    /// Every cell of the grid for which one of its rules finds a
    /// destination has proposed a move.
    pub open spec fn complete(&self) -> bool {
        self.complete_before(self.spec_width() as int, 0)
    }

    /// No candidate of a pending destination is itself a destination that
    /// comes earlier in the order of the commit: when a cell is moved, it
    /// still holds what it held when it proposed.
    pub open spec fn ordered(&self) -> bool {
        let order = self.destinations();
        let intents = self.intents();
        forall|j: int, k: int, i: int|
            #![trigger intents[order[k]][i], order[j]]
            0 <= j < k < order.len() && 0 <= i < intents[order[k]].len() ==> intents[order[k]][i]
                != order[j]
    }

    /// The pending moves are exactly those of one intent phase over the
    /// grid as it is.
    pub open spec fn settled(&self) -> bool {
        self.fresh() && self.complete() && self.ordered()
    }

    /// The first applicable rule judges alike in two states with one grid.
    pub(crate) proof fn lemma_allows_same_grid(&self, other: &SandWorld)
        requires
            self.same_grid(other),
        ensures
            forall|s: int, d: int| #[trigger] self.allows(s, d) == other.allows(s, d),
    {
        reveal(SandWorld::allows);
    }

    /// What the first applicable rule of the cell at `(x, y)` allows, it
    /// allows to the flat index of `(x, y)`; and that cell is not empty.
    pub(crate) proof fn lemma_allows_at(&self, x: int, y: int, dst: int)
        requires
            self.grid_wf(),
            self.has(x, y),
            self.first_rule(x, y).is_some(),
            self.rule_allows(self.first_rule(x, y).unwrap(), x, y, dst),
        ensures
            self.allows(self.index(x, y), dst),
            self@[self.index(x, y)].material != Material::Empty,
            self@[dst].material != Material::Empty ==> {
                &&& self@[dst].material == Material::Water
                &&& self@[self.index(x, y)].material == Material::Sand
                &&& dst == self.index(x, y) + self.spec_width()
            },
    {
        reveal(SandWorld::allows);
        let width = self.spec_width() as int;
        lemma_flat_index_in_range(width, self.spec_height() as int, x, y);
        assert(self@[self.index(x, y)].wf());
        assert((y + 1) * width + x == y * width + x + width) by (nonlinear_arith);
    }

    /// How the candidate lists after one more proposal relate to those
    /// before it.
    pub(crate) proof fn lemma_recorded_lists(&self, before: &SandWorld, src: int, dst: int)
        requires
            self.recorded(before, src, dst),
        ensures
            self.intents().contains_key(dst as usize),
            self.intents()[dst as usize] == candidates_of(before.intents(), dst as usize).push(
                src as usize,
            ),
            forall|d: usize| #[trigger]
                self.intents().contains_key(d) ==> d == dst as usize
                    || before.intents().contains_key(d) && self.intents()[d]
                    == before.intents()[d],
            forall|d: usize| #[trigger]
                before.intents().contains_key(d) ==> self.intents().contains_key(d),
    {
    }

    /// Adding the proposal of the cell at `(x, y)` to fresh pending moves
    /// whose sources were all scanned earlier leaves them fresh.
    proof fn lemma_record_keeps_fresh(&self, before: &SandWorld, x: int, y: int, dst: int)
        requires
            before.wf(),
            before.fresh(),
            before.scanned_before(x, y + 1),
            before.has(x, y),
            before.first_rule(x, y).is_some(),
            before.rule_allows(before.first_rule(x, y).unwrap(), x, y, dst),
            self.recorded(before, before.index(x, y), dst),
        ensures
            self.fresh(),
            self.scanned_before(x, y),
    {
        let width = before.spec_width() as int;
        let height = before.spec_height() as int;
        let src = before.index(x, y);
        let old_intents = before.intents();
        let intents = self.intents();
        let d0 = dst as usize;
        let s0 = src as usize;
        let added = candidates_of(old_intents, d0).len() as int;
        lemma_flat_index_in_range(width, height, x, y);
        before.lemma_allows_at(x, y, dst);
        self.lemma_allows_same_grid(before);
        self.lemma_recorded_lists(before, src, dst);
        assert forall|d: usize, i: int|
            intents.contains_key(d) && 0 <= i < intents[d].len() implies {
            let s = #[trigger] intents[d][i];
            &&& self.allows(s as int, d as int)
            &&& self@[s as int].material != Material::Empty
            &&& s as int % width < x || (s as int % width == x && s as int / width >= y)
            &&& s == s0 <==> d == d0 && i == added
        } by {
            if d == d0 && i == added {
                assert(intents[d][i] == s0);
            } else {
                assert(old_intents.contains_key(d));
                assert(intents[d][i] == old_intents[d][i]);
                let s = old_intents[d][i] as int;
                assert(s % width < x || (s % width == x && s / width >= y + 1));
            }
        }
        assert forall|d1: usize, i1: int, d2: usize, i2: int|
            #![trigger intents[d1][i1], intents[d2][i2]]
            intents.contains_key(d1) && 0 <= i1 < intents[d1].len() && intents.contains_key(d2)
                && 0 <= i2 < intents[d2].len() && (d1 != d2 || i1 != i2) implies intents[d1][i1]
            != intents[d2][i2] by {
            if (d1 == d0 && i1 == added) || (d2 == d0 && i2 == added) {
            } else {
                assert(intents[d1][i1] == old_intents[d1][i1]);
                assert(intents[d2][i2] == old_intents[d2][i2]);
            }
        }
        assert forall|d: usize| #[trigger] intents.contains_key(d) implies self@[d as int].material
            == Material::Empty || (self@[d as int].material == Material::Water && intents[d].len()
            == 1 && intents[d][0] + self.spec_width() == d && self@[intents[d][0] as int].material
            == Material::Sand) by {
            if d == d0 {
                if self@[d as int].material != Material::Empty {
                    if old_intents.contains_key(d0) {
                        assert(old_intents[d0][0] == s0);
                        assert(intents[d0][0] == s0);
                        assert(false);
                    }
                }
            } else {
                assert(old_intents.contains_key(d));
            }
        }
    }

    /// One more proposal, of the cell at `(x, y)`, extends what
    /// `complete_before` covers by that cell.
    proof fn lemma_record_keeps_complete(&self, before: &SandWorld, x: int, y: int, dst: int)
        requires
            before.wf(),
            before.has(x, y),
            before.complete_before(x, y + 1),
            self.recorded(before, before.index(x, y), dst),
        ensures
            self.complete_before(x, y),
    {
        let src = before.index(x, y);
        let d0 = dst as usize;
        let added = candidates_of(before.intents(), d0).len() as int;
        self.lemma_recorded_lists(before, src, dst);
        assert forall|cx: int, cy: int|
            self.has(cx, cy) && (cx < x || (cx == x && cy >= y)) && self.first_rule(
                cx,
                cy,
            ).is_some() implies #[trigger] self.proposed(self.index(cx, cy)) by {
            if cx == x && cy == y {
                assert(self.intents()[d0][added] == src);
            } else {
                assert(before.first_rule(cx, cy).is_some());
                assert(before.proposed(before.index(cx, cy)));
                let (d, i) = choose|d: usize, i: int|
                    before.intents().contains_key(d) && 0 <= i < before.intents()[d].len()
                        && #[trigger] before.intents()[d][i] == before.index(cx, cy);
                assert(self.intents().contains_key(d));
                assert(self.intents()[d][i] == before.intents()[d][i]);
            }
        }
    }

    /// A cell that holds a material and was not scanned yet is no pending
    /// destination: one more proposal, of the cell at `(x, y)`, keeps the
    /// pending moves ordered.
    proof fn lemma_record_keeps_ordered(&self, before: &SandWorld, x: int, y: int, dst: int)
        requires
            before.wf(),
            before.fresh(),
            before.ordered(),
            before.scanned_before(x, y + 1),
            before.has(x, y),
            before.first_rule(x, y).is_some(),
            before.rule_allows(before.first_rule(x, y).unwrap(), x, y, dst),
            self.recorded(before, before.index(x, y), dst),
        ensures
            self.ordered(),
    {
        let width = before.spec_width() as int;
        let height = before.spec_height() as int;
        let src = before.index(x, y);
        let s0 = src as usize;
        let d0 = dst as usize;
        let old_intents = before.intents();
        let old_order = before.destinations();
        let intents = self.intents();
        let order = self.destinations();
        let added = candidates_of(old_intents, d0).len() as int;
        lemma_flat_index_in_range(width, height, x, y);
        before.lemma_allows_at(x, y, dst);
        self.lemma_recorded_lists(before, src, dst);
        assert(!old_intents.contains_key(s0)) by {
            if old_intents.contains_key(s0) {
                let a = old_intents[s0][0] as int;
                assert(a + width == src);
                if y >= 1 {
                    lemma_flat_index_in_range(width, height, x, y - 1);
                    assert((y - 1) * width + x + width == y * width + x) by (nonlinear_arith);
                    assert(a == flat_index(width, x, y - 1));
                } else {
                    assert(0 * width + x == x) by (nonlinear_arith);
                }
                assert(false);
            }
        }
        assert(!old_order.contains(s0));
        assert forall|j: int, k: int, i: int|
            #![trigger intents[order[k]][i], order[j]]
            0 <= j < k < order.len() && 0 <= i < intents[order[k]].len() implies
            intents[order[k]][i] != order[j] by {
            let d = order[k];
            if k < old_order.len() {
                assert(old_order[k] == d && old_order[j] == order[j]);
                assert(old_order.contains(d));
                assert(old_order.contains(order[j]));
                assert(old_intents.contains_key(d));
                if d == d0 && i == added {
                    assert(intents[d][i] == s0);
                } else {
                    assert(intents[d][i] == old_intents[old_order[k]][i]);
                }
            } else {
                assert(d == d0 && !old_intents.contains_key(d0));
                assert(intents[d][i] == s0);
                assert(old_order[j] == order[j]);
                assert(old_order.contains(order[j]));
            }
        }
    }

    /// The intent phase. Scans the columns from left to right, each from
    /// the bottom row upward, and lets every cell propose its move. The
    /// grid is not touched.
    pub fn update(&mut self)
        requires
            old(self).wf(),
        ensures
            final(self).wf(),
            final(self).same_grid(old(self)),
            final(self).extends(old(self)),
            final(self).complete(),
            old(self).no_pending() ==> final(self).settled(),
    {
        let width = self.width();
        let height = self.height();
        let mut x: usize = 0;
        while x < width
            invariant
                self.wf(),
                self.same_grid(old(self)),
                width == self.spec_width(),
                height == self.spec_height(),
                x <= width,
                self.extends(old(self)),
                self.complete_before(x as int, height as int),
                old(self).no_pending() ==> self.fresh() && self.ordered() && self.scanned_before(
                    x as int,
                    height as int,
                ),
            decreases width - x,
        {
            let mut y: usize = height;
            while y > 0
                invariant
                    self.wf(),
                    self.same_grid(old(self)),
                    width == self.spec_width(),
                    height == self.spec_height(),
                    x < width,
                    y <= height,
                    self.extends(old(self)),
                    self.complete_before(x as int, y as int),
                    old(self).no_pending() ==> self.fresh() && self.ordered()
                        && self.scanned_before(x as int, y as int),
                decreases y,
            {
                y -= 1;
                let ghost before = *self;
                let moved = self.propose(x, y);
                proof {
                    if moved {
                        let dst = choose|dst: int|
                            before.rule_allows(
                                before.first_rule(x as int, y as int).unwrap(),
                                x as int,
                                y as int,
                                dst,
                            ) && #[trigger] self.recorded(
                                &before,
                                before.index(x as int, y as int),
                                dst,
                            );
                        self.lemma_record_keeps_complete(&before, x as int, y as int, dst);
                        self.lemma_recorded_lists(&before, before.index(x as int, y as int), dst);
                        assert(self.extends(&before));
                        if old(self).no_pending() {
                            self.lemma_record_keeps_fresh(&before, x as int, y as int, dst);
                            self.lemma_record_keeps_ordered(&before, x as int, y as int, dst);
                        }
                    }
                }
            }
            x += 1;
        }
    }
}

} // verus!
