//! The movement rules: where a cell may go, and the proposal it makes.

use vstd::prelude::*;
use crate::chance::{break_tie, random_below};
use crate::material::{Material, MovementKind};
use crate::world::{lemma_flat_index_in_range, SandWorld};

verus! {

impl SandWorld {
    /// Whether the cell at `(x, y)` may move straight down: the cell below
    /// is inside the grid and is empty, or holds a material that the moving
    /// one displaces.
    pub open spec fn can_sink(&self, x: int, y: int) -> bool {
        &&& self.has(x, y)
        &&& self.has(x, y + 1)
        &&& (self.material_at(x, y + 1) == Material::Empty || self.material_at(
            x,
            y,
        ).spec_can_displace(self.material_at(x, y + 1)))
    }

    /// Whether one of the two neighbours of column `x` in row `row` is
    /// vacant.
    pub open spec fn side_free(&self, x: int, row: int) -> bool {
        self.vacant(x - 1, row) || self.vacant(x + 1, row)
    }

    /// Whether `dst` is the index of a vacant neighbour of column `x` in row
    /// `row`.
    pub open spec fn side_allows(&self, x: int, row: int, dst: int) -> bool {
        ||| self.vacant(x - 1, row) && dst == self.index(x - 1, row)
        ||| self.vacant(x + 1, row) && dst == self.index(x + 1, row)
    }

    /// Whether the movement rule `kind` finds a destination for the cell at
    /// `(x, y)`.
    pub open spec fn rule_applies(&self, kind: MovementKind, x: int, y: int) -> bool {
        self.has(x, y) && match kind {
            MovementKind::Down => self.can_sink(x, y),
            MovementKind::DownSide => self.side_free(x, y + 1),
            MovementKind::Side => self.side_free(x, y),
            MovementKind::Up => self.vacant(x, y - 1),
            MovementKind::UpSide => self.side_free(x, y - 1),
        }
    }

    /// Whether the movement rule `kind` lets the cell at `(x, y)` propose
    /// the destination index `dst`. Every such destination is the index of
    /// a coordinate inside the grid.
    pub open spec fn rule_allows(&self, kind: MovementKind, x: int, y: int, dst: int) -> bool {
        self.has(x, y) && match kind {
            MovementKind::Down => self.can_sink(x, y) && dst == self.index(x, y + 1),
            MovementKind::DownSide => self.side_allows(x, y + 1, dst),
            MovementKind::Side => self.side_allows(x, y, dst),
            MovementKind::Up => self.vacant(x, y - 1) && dst == self.index(x, y - 1),
            MovementKind::UpSide => self.side_allows(x, y - 1, dst),
        }
    }

    /// The rule by which the cell at `(x, y)` moves in this tick: the first
    /// rule of its mask, in the order down, down-side, side, up, up-side,
    /// that finds a destination.
    pub open spec fn first_rule(&self, x: int, y: int) -> Option<MovementKind> {
        let mask = self@[self.index(x, y)].mask;
        if !self.has(x, y) {
            None
        } else if mask.down && self.rule_applies(MovementKind::Down, x, y) {
            Some(MovementKind::Down)
        } else if mask.down_side && self.rule_applies(MovementKind::DownSide, x, y) {
            Some(MovementKind::DownSide)
        } else if mask.side && self.rule_applies(MovementKind::Side, x, y) {
            Some(MovementKind::Side)
        } else if mask.up && self.rule_applies(MovementKind::Up, x, y) {
            Some(MovementKind::Up)
        } else if mask.up_side && self.rule_applies(MovementKind::UpSide, x, y) {
            Some(MovementKind::UpSide)
        } else {
            None
        }
    }

    /// Proposes a move of the cell at `(x, y)` to a vacant neighbour of
    /// column `x` in row `row`. Where both neighbours are vacant, a draw
    /// decides between them.
    fn move_to_side(&mut self, x: usize, y: usize, row: usize) -> (moved: bool)
        requires
            old(self).wf(),
            old(self).has(x as int, y as int),
        ensures
            final(self).wf(),
            moved == old(self).side_free(x as int, row as int),
            moved ==> exists|dst: int|
                old(self).side_allows(x as int, row as int, dst)
                    && #[trigger] final(self).recorded(
                    old(self),
                    old(self).index(x as int, y as int),
                    dst,
                ),
            !moved ==> *final(self) == *old(self),
    {
        let left = x > 0 && self.is_empty(x - 1, row);
        let right = self.is_empty(x + 1, row);
        let draw: usize = if left && right {
            random_below(2)
        } else {
            0
        };
        let (go_left, go_right) = break_tie(left, right, draw);
        if go_left {
            self.move_cell(x, y, x - 1, row);
            proof {
                let dst = old(self).index(x as int - 1, row as int);
                assert(final(self).recorded(old(self), old(self).index(x as int, y as int), dst));
            }
            true
        } else if go_right {
            self.move_cell(x, y, x + 1, row);
            proof {
                let dst = old(self).index(x as int + 1, row as int);
                assert(final(self).recorded(old(self), old(self).index(x as int, y as int), dst));
            }
            true
        } else {
            false
        }
    }

    /// The down rule: proposes a move of the cell at `(x, y)` to the cell
    /// below, where that one is empty or is water under sand.
    pub fn move_down(&mut self, x: usize, y: usize) -> (moved: bool)
        requires
            old(self).wf(),
        ensures
            final(self).wf(),
            moved == old(self).rule_applies(MovementKind::Down, x as int, y as int),
            moved ==> final(self).recorded(
                old(self),
                old(self).index(x as int, y as int),
                old(self).index(x as int, y + 1),
            ),
            !moved ==> *final(self) == *old(self),
    {
        if !self.in_bounds(x, y) {
            return false;
        }
        let dest_y = y + 1;
        if !self.in_bounds(x, dest_y) {
            return false;
        }
        let dest_cell = self.get_cell_by_pos(x, dest_y);
        let current_cell = self.get_cell_by_pos(x, y);
        let can_move = dest_cell.material == Material::Empty
            || current_cell.material.can_displace(dest_cell.material);
        if can_move {
            self.move_cell(x, y, x, dest_y);
        }
        can_move
    }

    /// The side rule: proposes a move of the cell at `(x, y)` to a vacant
    /// neighbour in its row.
    pub fn move_side(&mut self, x: usize, y: usize) -> (moved: bool)
        requires
            old(self).wf(),
        ensures
            final(self).wf(),
            moved == old(self).rule_applies(MovementKind::Side, x as int, y as int),
            moved ==> exists|dst: int|
                old(self).rule_allows(MovementKind::Side, x as int, y as int, dst)
                    && #[trigger] final(self).recorded(
                    old(self),
                    old(self).index(x as int, y as int),
                    dst,
                ),
            !moved ==> *final(self) == *old(self),
    {
        if !self.in_bounds(x, y) {
            return false;
        }
        self.move_to_side(x, y, y)
    }

    /// The down-side rule: proposes a move of the cell at `(x, y)` to a
    /// vacant diagonal neighbour in the row below.
    pub fn move_down_side(&mut self, x: usize, y: usize) -> (moved: bool)
        requires
            old(self).wf(),
        ensures
            final(self).wf(),
            moved == old(self).rule_applies(MovementKind::DownSide, x as int, y as int),
            moved ==> exists|dst: int|
                old(self).rule_allows(MovementKind::DownSide, x as int, y as int, dst)
                    && #[trigger] final(self).recorded(
                    old(self),
                    old(self).index(x as int, y as int),
                    dst,
                ),
            !moved ==> *final(self) == *old(self),
    {
        if !self.in_bounds(x, y) {
            return false;
        }
        self.move_to_side(x, y, y + 1)
    }

    /// The up rule: proposes a move of the cell at `(x, y)` to the cell
    /// above, where that one is vacant. In the top row it finds nothing.
    pub fn move_up(&mut self, x: usize, y: usize) -> (moved: bool)
        requires
            old(self).wf(),
        ensures
            final(self).wf(),
            moved == old(self).rule_applies(MovementKind::Up, x as int, y as int),
            moved ==> final(self).recorded(
                old(self),
                old(self).index(x as int, y as int),
                old(self).index(x as int, y - 1),
            ),
            !moved ==> *final(self) == *old(self),
    {
        if y == 0 || !self.in_bounds(x, y) {
            return false;
        }
        let up = self.is_empty(x, y - 1);
        if up {
            self.move_cell(x, y, x, y - 1);
        }
        up
    }

    /// The up-side rule: proposes a move of the cell at `(x, y)` to a
    /// vacant diagonal neighbour in the row above. In the top row it finds
    /// nothing.
    pub fn move_up_side(&mut self, x: usize, y: usize) -> (moved: bool)
        requires
            old(self).wf(),
        ensures
            final(self).wf(),
            moved == old(self).rule_applies(MovementKind::UpSide, x as int, y as int),
            moved ==> exists|dst: int|
                old(self).rule_allows(MovementKind::UpSide, x as int, y as int, dst)
                    && #[trigger] final(self).recorded(
                    old(self),
                    old(self).index(x as int, y as int),
                    dst,
                ),
            !moved ==> *final(self) == *old(self),
    {
        if y == 0 || !self.in_bounds(x, y) {
            return false;
        }
        self.move_to_side(x, y, y - 1)
    }

    /// Lets the cell at `(x, y)` propose its move for this tick: the rules
    /// of its mask are tried in the order down, down-side, side, up,
    /// up-side, and the first that finds a destination records it.
    pub fn propose(&mut self, x: usize, y: usize) -> (moved: bool)
        requires
            old(self).wf(),
        ensures
            final(self).wf(),
            moved == old(self).first_rule(x as int, y as int).is_some(),
            moved ==> exists|dst: int|
                old(self).rule_allows(
                    old(self).first_rule(x as int, y as int).unwrap(),
                    x as int,
                    y as int,
                    dst,
                ) && #[trigger] final(self).recorded(
                    old(self),
                    old(self).index(x as int, y as int),
                    dst,
                ),
            !moved ==> *final(self) == *old(self),
    {
        if !self.in_bounds(x, y) {
            return false;
        }
        let mask = self.get_cell_by_pos(x, y).mask;
        if mask.contains(MovementKind::Down) {
            if self.move_down(x, y) {
                assert(final(self).recorded(
                    old(self),
                    old(self).index(x as int, y as int),
                    old(self).index(x as int, y + 1),
                ));
                return true;
            }
        }
        if mask.contains(MovementKind::DownSide) {
            if self.move_down_side(x, y) {
                return true;
            }
        }
        if mask.contains(MovementKind::Side) {
            if self.move_side(x, y) {
                return true;
            }
        }
        if mask.contains(MovementKind::Up) {
            if self.move_up(x, y) {
                assert(final(self).recorded(
                    old(self),
                    old(self).index(x as int, y as int),
                    old(self).index(x as int, y - 1),
                ));
                return true;
            }
        }
        if mask.contains(MovementKind::UpSide) {
            if self.move_up_side(x, y) {
                return true;
            }
        }
        false
    }

    /// No rule proposes a destination outside the grid: what a rule allows
    /// is the flat index of a coordinate inside the grid, next to the
    /// moving cell.
    pub proof fn lemma_rules_stay_inside(&self, kind: MovementKind, x: int, y: int, dst: int)
        requires
            self.grid_wf(),
            self.rule_allows(kind, x, y, dst),
        ensures
            0 <= dst < self@.len(),
            exists|tx: int, ty: int|
                self.has(tx, ty) && dst == #[trigger] self.index(tx, ty) && x - 1 <= tx <= x + 1
                    && y - 1 <= ty <= y + 1,
    {
        let width = self.spec_width() as int;
        let height = self.spec_height() as int;
        let ty = match kind {
            MovementKind::Down => y + 1,
            MovementKind::DownSide => y + 1,
            MovementKind::Side => y,
            MovementKind::Up => y - 1,
            MovementKind::UpSide => y - 1,
        };
        let tx = if dst == self.index(x, ty) && self.has(x, ty) && (kind == MovementKind::Down
            || kind == MovementKind::Up) {
            x
        } else if self.vacant(x - 1, ty) && dst == self.index(x - 1, ty) {
            x - 1
        } else {
            x + 1
        };
        assert(self.has(tx, ty) && dst == self.index(tx, ty));
        lemma_flat_index_in_range(width, height, tx, ty);
    }

    /// A coordinate outside the grid is never vacant, so that no cell moves
    /// off the grid or wraps around its edge.
    pub proof fn lemma_outside_is_occupied(&self, x: int, y: int)
        requires
            !self.has(x, y),
        ensures
            !self.vacant(x, y),
            forall|kind: MovementKind| !self.rule_applies(kind, x, y),
    {
    }
}

} // verus!
