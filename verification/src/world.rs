//! The world: the grid of cells, the pending moves of the current tick, and
//! the two phases of a tick.

use std::collections::HashMap;
use vstd::prelude::*;
use crate::chance::random_below;
use crate::commit::{
    apply_move, apply_moves, lemma_move_into_empty_conserves, lemma_swap_conserves, materials,
};
use crate::material::{Cell, Material};

verus! {

broadcast use vstd::std_specs::hash::group_hash_axioms;

/// The flat index of the cell at column `x` and row `y` in a grid that is
/// `width` cells wide.
pub open spec fn flat_index(width: int, x: int, y: int) -> int {
    y * width + x
}

/// A coordinate inside a grid has a flat index inside the grid's array.
pub proof fn lemma_flat_index_in_range(width: int, height: int, x: int, y: int)
    requires
        0 <= x < width,
        0 <= y < height,
    ensures
        0 <= flat_index(width, x, y) < width * height,
        flat_index(width, x, y) % width == x,
        flat_index(width, x, y) / width == y,
{
    assert(0 <= y * width + x < width * height) by (nonlinear_arith)
        requires
            0 <= x < width,
            0 <= y < height,
    ;
    vstd::arithmetic::div_mod::lemma_fundamental_div_mod_converse(
        flat_index(width, x, y),
        width,
        y,
        x,
    );
}

/// The candidate sources recorded for `dst`, none where `dst` has no entry.
pub open spec fn candidates_of(intents: Map<usize, Seq<usize>>, dst: usize) -> Seq<usize> {
    if intents.contains_key(dst) {
        intents[dst]
    } else {
        Seq::empty()
    }
}

/// The pending moves after `src` proposed to move to `dst`.
pub open spec fn record_intent(intents: Map<usize, Seq<usize>>, src: usize, dst: usize) -> Map<
    usize,
    Seq<usize>,
> {
    intents.insert(dst, candidates_of(intents, dst).push(src))
}

/// The destinations, in the order of their first proposal, after a proposal
/// for `dst`.
pub open spec fn record_destination(
    intents: Map<usize, Seq<usize>>,
    order: Seq<usize>,
    dst: usize,
) -> Seq<usize> {
    if intents.contains_key(dst) {
        order
    } else {
        order.push(dst)
    }
}

/// The simulation state: a grid of cells, the brush, and the moves that the
/// cells proposed in the current tick.
pub struct SandWorld {
    brush: Material,
    width: usize,
    height: usize,
    cells: Vec<Cell>,
    changes: HashMap<usize, Vec<usize>>,
    order: Vec<usize>,
    water_cells: usize,
}

impl SandWorld {
    /// The grid, row by row.
    pub closed spec fn view(&self) -> Seq<Cell> {
        self.cells@
    }

    /// The number of columns.
    pub closed spec fn spec_width(&self) -> usize {
        self.width
    }

    /// The number of rows.
    pub closed spec fn spec_height(&self) -> usize {
        self.height
    }

    /// The material that the next paint edit places.
    pub closed spec fn spec_brush(&self) -> Material {
        self.brush
    }

    /// The number of paint edits that put water where there was none.
    pub closed spec fn spec_density(&self) -> usize {
        self.water_cells
    }

    /// The pending moves: for each destination index that has candidates,
    /// the source indices that proposed to move there, in the order of their
    /// proposals.
    pub closed spec fn intents(&self) -> Map<usize, Seq<usize>> {
        Map::new(|d: usize| self.changes@.contains_key(d), |d: usize| self.changes@[d]@)
    }

    /// The destinations of the pending moves, in the order of their first
    /// proposal: the order in which a commit goes through them.
    pub closed spec fn destinations(&self) -> Seq<usize> {
        self.order@
    }

    /// Whether `(x, y)` is a coordinate of the grid.
    pub open spec fn has(&self, x: int, y: int) -> bool {
        0 <= x < self.spec_width() && 0 <= y < self.spec_height()
    }

    /// The flat index of `(x, y)` in this grid.
    pub open spec fn index(&self, x: int, y: int) -> int {
        flat_index(self.spec_width() as int, x, y)
    }

    /// The material at `(x, y)`.
    pub open spec fn material_at(&self, x: int, y: int) -> Material {
        self@[self.index(x, y)].material
    }

    /// Whether `(x, y)` is inside the grid and empty. A coordinate outside
    /// the grid is never vacant.
    pub open spec fn vacant(&self, x: int, y: int) -> bool {
        self.has(x, y) && self.material_at(x, y) == Material::Empty
    }

    /// The grid is as large as its dimensions say and every cell carries
    /// the mask of its material.
    pub open spec fn grid_wf(&self) -> bool {
        &&& self@.len() == self.spec_width() * self.spec_height()
        &&& self.spec_width() * self.spec_height() <= usize::MAX
        &&& forall|i: int| 0 <= i < self@.len() ==> (#[trigger] self@[i]).wf()
    }

    /// The pending moves have one entry per listed destination, each with
    /// at least one candidate, and name only cells of the grid.
    pub open spec fn pending_wf(&self) -> bool {
        &&& self.destinations().no_duplicates()
        &&& forall|d: usize| #[trigger]
            self.intents().contains_key(d) <==> self.destinations().contains(d)
        &&& forall|d: usize| #[trigger]
            self.intents().contains_key(d) ==> d < self@.len() && self.intents()[d].len() > 0
        &&& forall|d: usize, i: int|
            self.intents().contains_key(d) && 0 <= i < self.intents()[d].len() ==> (
            #[trigger] self.intents()[d][i]) < self@.len()
    }

    /// The well-formedness of the whole state.
    pub open spec fn wf(&self) -> bool {
        self.grid_wf() && self.pending_wf()
    }

    /// No move is pending.
    pub open spec fn no_pending(&self) -> bool {
        self.intents() == Map::<usize, Seq<usize>>::empty() && self.destinations()
            == Seq::<usize>::empty()
    }

    /// Grid, dimensions, brush and counter are those of `before`.
    pub open spec fn same_grid(&self, before: &SandWorld) -> bool {
        &&& self@ == before@
        &&& self.spec_width() == before.spec_width()
        &&& self.spec_height() == before.spec_height()
        &&& self.spec_brush() == before.spec_brush()
        &&& self.spec_density() == before.spec_density()
    }

    /// Pending moves, dimensions, brush and counter are those of `before`.
    pub open spec fn same_pending(&self, before: &SandWorld) -> bool {
        &&& self.intents() == before.intents()
        &&& self.destinations() == before.destinations()
        &&& self.spec_width() == before.spec_width()
        &&& self.spec_height() == before.spec_height()
        &&& self.spec_brush() == before.spec_brush()
    }

    /// This state is `before` with one more proposal: `src` wishes to move
    /// to `dst`. The grid is untouched.
    pub open spec fn recorded(&self, before: &SandWorld, src: int, dst: int) -> bool {
        &&& self.same_grid(before)
        &&& 0 <= src < before@.len()
        &&& 0 <= dst < before@.len()
        &&& self.intents() == record_intent(before.intents(), src as usize, dst as usize)
        &&& self.destinations() == record_destination(
            before.intents(),
            before.destinations(),
            dst as usize,
        )
    }

    /// An all-empty world of the given dimensions, with sand on the brush.
    pub fn new(width: usize, height: usize) -> (world: SandWorld)
        requires
            width * height <= usize::MAX,
        ensures
            world.wf(),
            world.no_pending(),
            world.spec_width() == width,
            world.spec_height() == height,
            world.spec_brush() == Material::Sand,
            world.spec_density() == 0,
            world@ == Seq::new((width * height) as nat, |i: int| Cell::spec_of(Material::Empty)),
    {
        let n: usize = width * height;
        let mut cells: Vec<Cell> = Vec::new();
        let mut i: usize = 0;
        while i < n
            invariant
                i <= n,
                cells@ == Seq::new(i as nat, |j: int| Cell::spec_of(Material::Empty)),
            decreases n - i,
        {
            cells.push(Cell::empty());
            i += 1;
            assert(cells@ =~= Seq::new(i as nat, |j: int| Cell::spec_of(Material::Empty)));
        }
        let world = SandWorld {
            brush: Material::Sand,
            width,
            height,
            cells,
            changes: HashMap::new(),
            order: Vec::new(),
            water_cells: 0,
        };
        assert(world.intents() =~= Map::<usize, Seq<usize>>::empty());
        world
    }

    /// The number of columns.
    pub fn width(&self) -> (w: usize)
        ensures
            w == self.spec_width(),
    {
        self.width
    }

    /// The number of rows.
    pub fn height(&self) -> (h: usize)
        ensures
            h == self.spec_height(),
    {
        self.height
    }

    /// Whether `(x, y)` is a coordinate of the grid.
    pub fn in_bounds(&self, x: usize, y: usize) -> (inside: bool)
        ensures
            inside == self.has(x as int, y as int),
    {
        x < self.width && y < self.height
    }

    /// The flat index of a coordinate of the grid.
    pub fn get_index_by_pos(&self, x: usize, y: usize) -> (index: usize)
        requires
            self.grid_wf(),
            self.has(x as int, y as int),
        ensures
            index == self.index(x as int, y as int),
            index < self@.len(),
    {
        proof {
            lemma_flat_index_in_range(self.width as int, self.height as int, x as int, y as int);
            assert(0 <= y * self.width) by (nonlinear_arith)
                requires
                    0 <= y,
                    0 <= self.width,
            ;
        }
        y * self.width + x
    }

    /// The cell at a flat index.
    pub fn get_cell_by_index(&self, index: usize) -> (cell: Cell)
        requires
            index < self@.len(),
        ensures
            cell == self@[index as int],
    {
        self.cells[index]
    }

    /// The cell at a coordinate of the grid.
    pub fn get_cell_by_pos(&self, x: usize, y: usize) -> (cell: Cell)
        requires
            self.grid_wf(),
            self.has(x as int, y as int),
        ensures
            cell == self@[self.index(x as int, y as int)],
    {
        let index = self.get_index_by_pos(x, y);
        self.cells[index]
    }

    /// The material at a coordinate of the grid.
    pub fn cell_at(&self, x: usize, y: usize) -> (material: Material)
        requires
            self.grid_wf(),
            self.has(x as int, y as int),
        ensures
            material == self.material_at(x as int, y as int),
    {
        self.get_cell_by_pos(x, y).material
    }

    /// Overwrites the cell at a coordinate of the grid, and says whether
    /// the material there changed.
    pub fn set_cell_by_pos(&mut self, x: usize, y: usize, cell: Cell) -> (changed: bool)
        requires
            old(self).wf(),
            old(self).has(x as int, y as int),
            cell.wf(),
        ensures
            final(self).wf(),
            final(self).same_pending(old(self)),
            final(self).spec_density() == old(self).spec_density(),
            final(self)@ == old(self)@.update(old(self).index(x as int, y as int), cell),
            changed == (old(self).material_at(x as int, y as int) != cell.material),
    {
        let index = self.get_index_by_pos(x, y);
        let changed = self.cells[index].material != cell.material;
        self.cells.set(index, cell);
        assert(final(self).intents() =~= old(self).intents());
        changed
    }

    /// Whether `(x, y)` is inside the grid and empty: false for every
    /// coordinate outside the grid.
    pub fn is_empty(&self, x: usize, y: usize) -> (empty: bool)
        requires
            self.grid_wf(),
        ensures
            empty == self.vacant(x as int, y as int),
            !self.has(x as int, y as int) ==> !empty,
    {
        if !self.in_bounds(x, y) {
            return false;
        }
        let cell = self.get_cell_by_pos(x, y);
        cell.material == Material::Empty
    }

    /// Selects the material of the next paint edits.
    pub fn set_brush(&mut self, material: Material)
        ensures
            final(self).spec_brush() == material,
            final(self)@ == old(self)@,
            final(self).spec_width() == old(self).spec_width(),
            final(self).spec_height() == old(self).spec_height(),
            final(self).spec_density() == old(self).spec_density(),
            final(self).intents() == old(self).intents(),
            final(self).destinations() == old(self).destinations(),
    {
        self.brush = material;
        assert(final(self).intents() =~= old(self).intents());
    }

    /// The count after one more paint edit that put water where there was
    /// none: one more, as long as the counter can hold it.
    pub open spec fn density_after(density: usize, changed: bool, brush: Material) -> usize {
        if changed && brush == Material::Water && density < usize::MAX {
            (density + 1) as usize
        } else {
            density
        }
    }

    /// Paints the cell at `(x, y)` with a fresh cell of the brush's
    /// material and says whether the material there changed. Outside the
    /// grid nothing happens and the answer is no.
    pub fn paint(&mut self, x: usize, y: usize) -> (changed: bool)
        requires
            old(self).wf(),
        ensures
            final(self).wf(),
            final(self).same_pending(old(self)),
            old(self).has(x as int, y as int) ==> {
                &&& final(self)@ == old(self)@.update(
                    old(self).index(x as int, y as int),
                    Cell::spec_of(old(self).spec_brush()),
                )
                &&& changed == (old(self).material_at(x as int, y as int) != old(self).spec_brush())
            },
            !old(self).has(x as int, y as int) ==> !changed && final(self)@ == old(self)@,
            final(self).spec_density() == Self::density_after(
                old(self).spec_density(),
                changed,
                old(self).spec_brush(),
            ),
    {
        if !self.in_bounds(x, y) {
            return false;
        }
        let cell = Cell::of(self.brush);
        let changed = self.set_cell_by_pos(x, y, cell);
        if changed && self.brush == Material::Water && self.water_cells < usize::MAX {
            self.water_cells += 1;
        }
        assert(final(self).intents() =~= old(self).intents());
        changed
    }

    /// Records that the cell at `(x, y)` wishes to move to `(xto, yto)`.
    pub fn move_cell(&mut self, x: usize, y: usize, xto: usize, yto: usize)
        requires
            old(self).wf(),
            old(self).has(x as int, y as int),
            old(self).has(xto as int, yto as int),
        ensures
            final(self).wf(),
            final(self).recorded(
                old(self),
                old(self).index(x as int, y as int),
                old(self).index(xto as int, yto as int),
            ),
    {
        let index = self.get_index_by_pos(x, y);
        let index_to = self.get_index_by_pos(xto, yto);
        let ghost before = self.intents();
        if self.changes.contains_key(&index_to) {
            let taken = self.changes.remove(&index_to);
            if let Some(mut sources) = taken {
                sources.push(index);
                self.changes.insert(index_to, sources);
            }
        } else {
            let mut sources: Vec<usize> = Vec::new();
            sources.push(index);
            self.changes.insert(index_to, sources);
            self.order.push(index_to);
        }
        proof {
            assert(final(self).intents() =~= record_intent(before, index, index_to));
            let after = final(self).destinations();
            let earlier = old(self).destinations();
            if before.contains_key(index_to) {
                assert(after == earlier);
            } else {
                assert(!earlier.contains(index_to));
                assert(after == earlier.push(index_to));
                assert(after.no_duplicates());
                assert forall|d: usize| #[trigger]
                    final(self).intents().contains_key(d) <==> after.contains(d) by {
                    if d == index_to {
                        assert(after[earlier.len() as int] == d);
                    } else if earlier.contains(d) {
                        let k = choose|k: int| 0 <= k < earlier.len() && earlier[k] == d;
                        assert(after[k] == d);
                    }
                }
            }
            assert forall|d: usize, i: int|
                final(self).intents().contains_key(d) && 0 <= i < final(self).intents()[d].len()
                implies (#[trigger] final(self).intents()[d][i]) < final(self)@.len() by {
                if d == index_to && i < candidates_of(before, index_to).len() {
                    assert(before[d][i] < old(self)@.len());
                } else if d != index_to {
                    assert(before[d][i] < old(self)@.len());
                }
            }
        }
    }

    /// A choice of one candidate for each pending destination, in the order
    /// of the destinations.
    pub open spec fn selects(&self, moves: Seq<(usize, usize)>) -> bool {
        &&& moves.len() == self.destinations().len()
        &&& forall|k: int|
            0 <= k < moves.len() ==> (#[trigger] moves[k]).1 == self.destinations()[k]
                && self.intents()[self.destinations()[k]].contains(moves[k].0)
    }

    /// While a commit is under way, with the destinations before position
    /// `k` done and `cells` the grid so far: no material was lost, and each
    /// destination still to come is as empty as it was, or is water, or
    /// emptied water, under its sand.
    pub open spec fn conserving(&self, cells: Seq<Cell>, k: int) -> bool {
        &&& materials(cells).to_multiset() == materials(self@).to_multiset()
        &&& forall|j: int|
            k <= j < self.destinations().len() ==> {
                let d = #[trigger] self.destinations()[j];
                &&& self@[d as int].material == Material::Empty ==> cells[d as int]
                    == Cell::spec_of(Material::Empty)
                &&& self@[d as int].material == Material::Water ==> {
                    &&& cells[d as int].material == Material::Water || cells[d as int]
                        == Cell::spec_of(Material::Empty)
                    &&& cells[self.intents()[d][0] as int].material == Material::Sand
                }
            }
    }

    /// One step of a commit over fresh pending moves keeps `conserving`.
    proof fn lemma_commit_step(&self, cells: Seq<Cell>, k: int, src: usize)
        requires
            self.wf(),
            self.fresh(),
            cells.len() == self@.len(),
            forall|i: int| 0 <= i < cells.len() ==> (#[trigger] cells[i]).wf(),
            0 <= k < self.destinations().len(),
            self.intents()[self.destinations()[k]].contains(src),
            self.conserving(cells, k),
        ensures
            self.conserving(apply_move(cells, src as int, self.destinations()[k] as int), k + 1),
    {
        let order = self.destinations();
        let intents = self.intents();
        let d = order[k];
        assert(order.contains(d));
        assert(intents.contains_key(d));
        let i = choose|i: int| 0 <= i < intents[d].len() && intents[d][i] == src;
        assert(intents[d][i] < self@.len());
        assert(self@[src as int].material != Material::Empty);
        let next = apply_move(cells, src as int, d as int);
        if self@[d as int].material == Material::Empty {
            lemma_move_into_empty_conserves(cells, src as int, d as int);
        } else {
            assert(i == 0);
            if cells[d as int].material == Material::Water {
                lemma_swap_conserves(cells, src as int, d as int);
            } else {
                lemma_move_into_empty_conserves(cells, src as int, d as int);
            }
        }
        assert forall|j: int| k + 1 <= j < order.len() implies {
            let dj = #[trigger] order[j];
            &&& self@[dj as int].material == Material::Empty ==> next[dj as int] == Cell::spec_of(
                Material::Empty,
            )
            &&& self@[dj as int].material == Material::Water ==> {
                &&& next[dj as int].material == Material::Water || next[dj as int]
                    == Cell::spec_of(Material::Empty)
                &&& next[intents[dj][0] as int].material == Material::Sand
            }
        } by {
            let dj = order[j];
            assert(dj != d);
            assert(order.contains(dj));
            assert(intents.contains_key(dj));
            assert(dj < self@.len());
            if self@[dj as int].material == Material::Water {
                let sj = intents[dj][0];
                assert(sj < self@.len());
                assert(intents[dj][0] != intents[d][i]);
            }
        }
    }

    /// Forgets all pending moves. The grid is not touched.
    pub fn discard_pending(&mut self)
        ensures
            final(self).no_pending(),
            final(self).same_grid(old(self)),
            old(self).grid_wf() ==> final(self).wf(),
    {
        self.changes.clear();
        self.order.clear();
        assert(final(self).intents() =~= Map::<usize, Seq<usize>>::empty());
    }

    /// Applies one move: sand over water changes places with it; any other
    /// source takes the destination's place and leaves an empty cell behind.
    pub fn commit_move(&mut self, source: usize, destination: usize)
        requires
            old(self).wf(),
            source < old(self)@.len(),
            destination < old(self)@.len(),
        ensures
            final(self).wf(),
            final(self).same_pending(old(self)),
            final(self).spec_density() == old(self).spec_density(),
            final(self)@ == apply_move(old(self)@, source as int, destination as int),
    {
        let moving = self.cells[source];
        let target = self.cells[destination];
        if moving.material == Material::Sand && target.material == Material::Water {
            self.cells.set(destination, moving);
            self.cells.set(source, target);
        } else {
            self.cells.set(destination, moving);
            self.cells.set(source, Cell::empty());
        }
        assert(final(self).intents() =~= old(self).intents());
    }

    /// The commit phase. Goes through the pending destinations in the order
    /// of their first proposal, draws one of the candidates of each, and
    /// applies that move; then forgets all pending moves. The candidates
    /// that were not drawn stay where they are. No destination is frozen
    /// once it was written: over settled pending moves the order alone
    /// makes sure that nothing is moved twice.
    pub fn commit_cells(&mut self)
        requires
            old(self).wf(),
        ensures
            final(self).wf(),
            final(self).no_pending(),
            final(self).spec_width() == old(self).spec_width(),
            final(self).spec_height() == old(self).spec_height(),
            final(self).spec_brush() == old(self).spec_brush(),
            final(self).spec_density() == old(self).spec_density(),
            exists|moves: Seq<(usize, usize)>|
                old(self).selects(moves) && #[trigger] apply_moves(old(self)@, moves)
                    == final(self)@,
            old(self).fresh() ==> materials(final(self)@).to_multiset() == materials(
                old(self)@,
            ).to_multiset(),
    {
        let ghost start = *self;
        let ghost mut moves: Seq<(usize, usize)> = Seq::empty();
        let total = self.order.len();
        proof {
            if start.fresh() {
                assert forall|j: int| 0 <= j < start.destinations().len() implies {
                    let d = #[trigger] start.destinations()[j];
                    start.intents().contains_key(d) && start@[d as int].wf()
                } by {
                    let d = start.destinations()[j];
                    assert(start.destinations().contains(d));
                    assert(start.intents().contains_key(d));
                    assert(d < start@.len());
                }
            }
        }
        let mut k: usize = 0;
        while k < total
            invariant
                k <= total,
                total == self.order@.len(),
                start.wf(),
                self.wf(),
                self.same_pending(&start),
                self.spec_density() == start.spec_density(),
                self@.len() == start@.len(),
                moves.len() == k,
                forall|j: int|
                    0 <= j < k ==> (#[trigger] moves[j]).1 == start.destinations()[j]
                        && start.intents()[start.destinations()[j]].contains(moves[j].0),
                self@ == apply_moves(start@, moves),
                start.fresh() ==> start.conserving(self@, k as int),
            decreases total - k,
        {
            let destination = self.order[k];
            assert(self.destinations().contains(destination));
            assert(self.intents().contains_key(destination));
            let mut source = destination;
            match self.changes.get(&destination) {
                Some(sources) => {
                    let draw = random_below(sources.len());
                    source = sources[draw];
                    assert(self.intents()[destination][draw as int] == source);
                },
                None => {},
            }
            assert(start.intents()[destination].contains(source));
            proof {
                if start.fresh() {
                    start.lemma_commit_step(self@, k as int, source);
                }
            }
            let ghost earlier = moves;
            self.commit_move(source, destination);
            proof {
                moves = earlier.push((source, destination));
                assert(moves.drop_last() == earlier);
            }
            k += 1;
        }
        self.changes.clear();
        self.order.clear();
        assert(final(self).intents() =~= Map::<usize, Seq<usize>>::empty());
        assert(start.selects(moves));
    }

    /// The number of cells that hold `material`.
    pub fn count_material(&self, material: Material) -> (count: usize)
        ensures
            count == materials(self@).to_multiset().count(material),
    {
        let mut count: usize = 0;
        let mut i: usize = 0;
        assert(self@.take(0) =~= Seq::<Cell>::empty());
        assert(materials(self@.take(0)) =~= Seq::<Material>::empty());
        proof {
            broadcast use vstd::seq_lib::group_to_multiset_ensures;

            assert(Seq::<Material>::empty().to_multiset().len() == 0);
        }
        while i < self.cells.len()
            invariant
                i <= self.cells@.len(),
                count <= i,
                count == materials(self@.take(i as int)).to_multiset().count(material),
            decreases self.cells@.len() - i,
        {
            proof {
                broadcast use vstd::seq_lib::group_to_multiset_ensures;

                let done = materials(self@.take(i as int));
                assert(materials(self@.take(i + 1)) =~= done.push(self@[i as int].material));
            }
            if self.cells[i].material == material {
                count += 1;
            }
            i += 1;
        }
        assert(self@.take(i as int) =~= self@);
        count
    }

    /// The number of paint edits that put water where there was none.
    pub fn density(&self) -> (count: usize)
        ensures
            count == self.spec_density(),
    {
        self.water_cells
    }

    /// The material on the brush.
    pub fn brush_material(&self) -> (material: Material)
        ensures
            material == self.spec_brush(),
    {
        self.brush
    }

    /// The display name of the material on the brush.
    pub fn brush(&self) -> (name: &'static str)
        ensures
            name@ == self.spec_brush().spec_name(),
    {
        self.brush.name()
    }
}

} // verus!
