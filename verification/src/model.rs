//! The running game: a grid of cells, whether it is running, and how it
//! answers the messages of a driver (a timer, buttons, a click on a cell).
//!
//! The model decides and computes; it does not wait, draw or listen. A
//! driver hands it one message at a time and redraws when told to.

use crate::cell::Cell;
use crate::error::GridError;
use crate::grid::{lemma_flat_in_range, lemma_position_of_place, Grid};
use crate::motif::{dead_cells, motif_cells, CellMotif};
use crate::random::tosses;
use crate::torus::{lemma_wrapped_identity, lemma_wrapped_step, wrap, wrapped};
use vstd::prelude::*;

verus! {

/// What a driver can tell the model.
#[derive(Clone, Copy, Debug, PartialEq, Eq, Structural)]
pub enum Msg {
    /// The timer fired.
    Tick,
    /// The cell at this place of the row-major order was clicked.
    ToggleCellule(usize),
    /// Let the timer advance the game.
    Start,
    /// Let the timer pass without effect.
    Stop,
    /// Advance the game by one generation, running or not.
    Step,
    /// Kill every cell.
    Reset,
    /// Make every cell alive or dead by the toss of a coin.
    Random,
}

/// The width of the grid of a new model.
pub const CELLULES_WIDTH: usize = 53;

/// The height of the grid of a new model.
pub const CELLULES_HEIGHT: usize = 40;

/// What a model holds, as mathematics.
pub struct ModelState {
    /// Whether the timer advances the game.
    pub active: bool,
    /// The grid.
    pub grid: Grid,
}

impl ModelState {
    /// The state with the running flag set as given.
    pub open spec fn with_active(self, active: bool) -> ModelState {
        ModelState { active, grid: self.grid }
    }

    /// The state one generation later.
    pub open spec fn stepped(self) -> ModelState {
        ModelState { active: self.active, grid: self.grid.next() }
    }

    /// The state with the cell at place `index` flipped.
    pub open spec fn toggled(self, index: int) -> ModelState {
        ModelState {
            active: self.active,
            grid: Grid {
                width: self.grid.width,
                height: self.grid.height,
                cells: self.grid.cells.update(index, self.grid.cells[index].flipped()),
            },
        }
    }

    /// The state with every cell dead.
    pub open spec fn cleared(self) -> ModelState {
        ModelState { active: self.active, grid: Grid::blank(self.grid.width, self.grid.height) }
    }

    /// The state with the cells that the coin tosses `draws` prescribe: the
    /// cell at place `i` is alive if `draws[i]` is true.
    pub open spec fn reseeded(self, draws: Seq<bool>) -> ModelState {
        ModelState {
            active: self.active,
            grid: Grid {
                width: self.grid.width,
                height: self.grid.height,
                cells: motif_cells(
                    self.grid.width as int,
                    self.grid.height as int,
                    CellMotif::Random,
                    draws,
                ),
            },
        }
    }

    /// The state after a message that chance has no part in.
    pub open spec fn after(self, msg: Msg) -> ModelState {
        match msg {
            Msg::Tick => if self.active {
                self.stepped()
            } else {
                self
            },
            Msg::ToggleCellule(index) => self.toggled(index as int),
            Msg::Start => self.with_active(true),
            Msg::Stop => self.with_active(false),
            Msg::Step => self.stepped(),
            Msg::Reset => self.cleared(),
            Msg::Random => self,
        }
    }

    /// Whether the driver is to redraw after the message: after every
    /// message that may have changed a cell.
    pub open spec fn redraws(self, msg: Msg) -> bool {
        match msg {
            Msg::Tick => self.active,
            Msg::ToggleCellule(_) => true,
            Msg::Start => false,
            Msg::Stop => false,
            Msg::Step => true,
            Msg::Reset => true,
            Msg::Random => true,
        }
    }
}

/// The number of live cells among eight.
pub open spec fn live_among(around: Seq<Cell>) -> int {
    around[0].weight() + around[1].weight() + around[2].weight() + around[3].weight()
        + around[4].weight() + around[5].weight() + around[6].weight() + around[7].weight()
}

/// Counts the live cells among eight.
pub fn count_alive(around: &[Cell; 8]) -> (count: u8)
    ensures
        count == live_among(around@),
        count <= 8,
{
    around[0].to_u8() + around[1].to_u8() + around[2].to_u8() + around[3].to_u8()
        + around[4].to_u8() + around[5].to_u8() + around[6].to_u8() + around[7].to_u8()
}

/// Whether the place `i` is among the first `upto` entries of a list of
/// places.
spec fn lists(places: Seq<usize>, upto: int, i: int) -> bool {
    exists|j: int| 0 <= j < upto && j < places.len() && #[trigger] places[j] == i
}

/// Whether a place is among the first `k + 1` entries, told from the first
/// `k`.
proof fn lemma_lists_step(places: Seq<usize>, k: int, i: int)
    requires
        0 <= k < places.len(),
    ensures
        lists(places, k + 1, i) <==> lists(places, k, i) || places[k] == i,
{
    if lists(places, k + 1, i) {
        let j = choose|j: int| 0 <= j < k + 1 && j < places.len() && #[trigger] places[j] == i;
        if j < k {
            assert(lists(places, k, i));
        }
    }
    if lists(places, k, i) {
        let j = choose|j: int| 0 <= j < k && j < places.len() && #[trigger] places[j] == i;
        assert(places[j] == i);
    }
    if places[k] == i {
        assert(lists(places, k + 1, i));
    }
}

/// A list with one more entry lists what it listed before, and the new
/// entry.
proof fn lemma_lists_push(places: Seq<usize>, place: usize, i: int)
    ensures
        lists(places.push(place), places.len() as int + 1, i) <==> lists(
            places,
            places.len() as int,
            i,
        ) || place == i,
{
    let longer = places.push(place);
    if lists(longer, places.len() as int + 1, i) {
        let j = choose|j: int|
            0 <= j < places.len() + 1 && j < longer.len() && #[trigger] longer[j] == i;
        if j < places.len() {
            assert(places[j] == i);
        }
    }
    if lists(places, places.len() as int, i) {
        let j = choose|j: int|
            0 <= j < places.len() && j < places.len() && #[trigger] places[j] == i;
        assert(longer[j] == i);
    }
    if place == i {
        assert(longer[places.len() as int] == i);
    }
}

/// A game: a toroidal grid of cells and a flag that says whether it runs.
pub struct Model {
    active: bool,
    cellules: Vec<Cell>,
    cellules_width: usize,
    cellules_height: usize,
}

impl View for Model {
    type V = ModelState;

    closed spec fn view(&self) -> ModelState {
        ModelState {
            active: self.active,
            grid: Grid {
                width: self.cellules_width as nat,
                height: self.cellules_height as nat,
                cells: self.cellules@,
            },
        }
    }
}

impl Model {
    /// Holds of every model there is: the grid is well formed, and its
    /// dimensions can be written as signed coordinates.
    #[verifier::type_invariant]
    closed spec fn inv(&self) -> bool {
        &&& self@.grid.wf()
        &&& self.cellules_width <= isize::MAX
        &&& self.cellules_height <= isize::MAX
    }

    /// A new game: 53 columns and 40 rows of dead cells, not running.
    pub fn new() -> (model: Model)
        ensures
            model@ == (ModelState {
                active: false,
                grid: Grid::blank(CELLULES_WIDTH as nat, CELLULES_HEIGHT as nat),
            }),
            model@.grid.wf(),
    {
        let cellules = dead_cells(CELLULES_WIDTH * CELLULES_HEIGHT);
        assert(cellules@ =~= Grid::blank(CELLULES_WIDTH as nat, CELLULES_HEIGHT as nat).cells);
        Model {
            active: false,
            cellules,
            cellules_width: CELLULES_WIDTH,
            cellules_height: CELLULES_HEIGHT,
        }
    }

    /// Whether the timer advances the game.
    pub fn is_active(&self) -> (active: bool)
        ensures
            active == self@.active,
    {
        self.active
    }

    /// The number of columns.
    pub fn width(&self) -> (width: usize)
        ensures
            width == self@.grid.width,
            width > 0,
    {
        proof {
            use_type_invariant(self);
        }
        self.cellules_width
    }

    /// The number of rows.
    pub fn height(&self) -> (height: usize)
        ensures
            height == self@.grid.height,
            height > 0,
    {
        proof {
            use_type_invariant(self);
        }
        self.cellules_height
    }

    /// The cells in row-major order, to read.
    pub fn cellules(&self) -> (cells: &Vec<Cell>)
        ensures
            cells@ == self@.grid.cells,
            self@.grid.wf(),
    {
        proof {
            use_type_invariant(self);
        }
        &self.cellules
    }

    /// The place in the row-major order of the cell that `(row, col)` names
    /// on the torus.
    pub fn row_col_as_idx(&self, row: isize, col: isize) -> (index: usize)
        ensures
            index == self@.grid.flat(
                wrapped(row as int, self@.grid.height as int),
                wrapped(col as int, self@.grid.width as int),
            ),
            index < self@.grid.cells.len(),
            self@.grid.cells[index as int] == self@.grid.at(row as int, col as int),
    {
        proof {
            use_type_invariant(self);
        }
        let row = wrap(row, self.cellules_height as isize);
        let col = wrap(col, self.cellules_width as isize);
        proof {
            lemma_flat_in_range(self@.grid, row as int, col as int);
            assert(self@.grid.cells.len() == self.cellules.len() <= usize::MAX);
        }
        row * self.cellules_width + col
    }

    /// The eight neighbours of `(row, col)` on the torus: below, below
    /// right, below left, above, above right, above left, left, right. The
    /// coordinates are wrapped onto the grid, so every pair is accepted.
    pub fn neighbors(&self, row: isize, col: isize) -> (around: [Cell; 8])
        ensures
            around@[0] == self@.grid.at(row + 1, col as int),
            around@[1] == self@.grid.at(row + 1, col + 1),
            around@[2] == self@.grid.at(row + 1, col - 1),
            around@[3] == self@.grid.at(row - 1, col as int),
            around@[4] == self@.grid.at(row - 1, col + 1),
            around@[5] == self@.grid.at(row - 1, col - 1),
            around@[6] == self@.grid.at(row as int, col - 1),
            around@[7] == self@.grid.at(row as int, col + 1),
            live_among(around@) == self@.grid.live_count(row as int, col as int),
    {
        proof {
            use_type_invariant(self);
        }
        // stepping from the place that the coordinate names cannot overflow
        let row_on = wrap(row, self.cellules_height as isize) as isize;
        let col_on = wrap(col, self.cellules_width as isize) as isize;
        proof {
            let h = self@.grid.height as int;
            let w = self@.grid.width as int;
            lemma_wrapped_step(row as int, 1, h);
            lemma_wrapped_step(row as int, 0, h);
            lemma_wrapped_step(row as int, -1, h);
            lemma_wrapped_step(col as int, 1, w);
            lemma_wrapped_step(col as int, 0, w);
            lemma_wrapped_step(col as int, -1, w);
        }
        [
            self.cellules[self.row_col_as_idx(row_on + 1, col_on)],
            self.cellules[self.row_col_as_idx(row_on + 1, col_on + 1)],
            self.cellules[self.row_col_as_idx(row_on + 1, col_on - 1)],
            self.cellules[self.row_col_as_idx(row_on - 1, col_on)],
            self.cellules[self.row_col_as_idx(row_on - 1, col_on + 1)],
            self.cellules[self.row_col_as_idx(row_on - 1, col_on - 1)],
            self.cellules[self.row_col_as_idx(row_on, col_on - 1)],
            self.cellules[self.row_col_as_idx(row_on, col_on + 1)],
        ]
    }

    /// Kills every cell.
    pub fn reset(&mut self)
        ensures
            final(self)@ == old(self)@.cleared(),
            final(self)@.grid.wf(),
    {
        proof {
            use_type_invariant(&*self);
        }
        let count = self.cellules.len();
        let mut i: usize = 0;
        while i < count
            invariant
                i <= count,
                count == self.cellules@.len(),
                self@.grid.wf(),
                self@.active == old(self)@.active,
                self@.grid.width == old(self)@.grid.width,
                self@.grid.height == old(self)@.grid.height,
                self.cellules_width <= isize::MAX,
                self.cellules_height <= isize::MAX,
                forall|k: int| 0 <= k < i ==> self@.grid.cells[k] == Cell::Dead,
            decreases count - i,
        {
            self.cellules[i] = Cell::Dead;
            i = i + 1;
        }
        assert(self@.grid.cells =~= old(self)@.cleared().grid.cells);
    }

    /// Makes every cell what the coin tosses `draws` prescribe: the cell at
    /// place `i` of the row-major order is alive if `draws[i]` is true.
    /// Tosses beyond the last cell are not read. With fewer tosses than
    /// cells nothing changes.
    pub fn reseed(&mut self, draws: &[bool]) -> (done: Result<(), GridError>)
        ensures
            final(self)@.grid.wf(),
            match done {
                Ok(_) => {
                    &&& draws@.len() >= old(self)@.grid.cells.len()
                    &&& final(self)@ == old(self)@.reseeded(draws@)
                },
                Err(e) => {
                    &&& e == GridError::TooFewDraws
                    &&& draws@.len() < old(self)@.grid.cells.len()
                    &&& final(self)@ == old(self)@
                },
            },
    {
        proof {
            use_type_invariant(&*self);
        }
        let count = self.cellules.len();
        if draws.len() < count {
            return Err(GridError::TooFewDraws);
        }
        let mut i: usize = 0;
        while i < count
            invariant
                i <= count,
                count == self.cellules@.len(),
                count <= draws@.len(),
                self@.grid.wf(),
                self@.active == old(self)@.active,
                self@.grid.width == old(self)@.grid.width,
                self@.grid.height == old(self)@.grid.height,
                self.cellules_width <= isize::MAX,
                self.cellules_height <= isize::MAX,
                forall|k: int|
                    0 <= k < i ==> self@.grid.cells[k] == (if draws@[k] {
                        Cell::Alive
                    } else {
                        Cell::Dead
                    }),
            decreases count - i,
        {
            if draws[i] {
                self.cellules[i] = Cell::Alive;
            } else {
                self.cellules[i] = Cell::Dead;
            }
            i = i + 1;
        }
        assert(self@.grid.cells =~= old(self)@.reseeded(draws@).grid.cells);
        Ok(())
    }

    /// Makes every cell alive or dead by the toss of a coin. The coins are
    /// tossed here, so only what chance has no part in is fixed: the
    /// dimensions and the running flag stay.
    pub fn random_mutate(&mut self)
        ensures
            final(self)@.grid.wf(),
            final(self)@.active == old(self)@.active,
            final(self)@.grid.width == old(self)@.grid.width,
            final(self)@.grid.height == old(self)@.grid.height,
    {
        let draws = tosses(self.cellules.len());
        let _ = self.reseed(draws.as_slice());
    }
    /// Advances the game by one generation. The cells that die and those
    /// that come alive are first listed, by reading the grid as it is, and
    /// only then changed.
    pub fn step(&mut self)
        ensures
            final(self)@ == old(self)@.stepped(),
            final(self)@.grid.wf(),
    {
        proof {
            use_type_invariant(&*self);
        }
        let ghost before = self@.grid;
        let ghost after = before.next().cells;
        let mut to_dead: Vec<usize> = Vec::new();
        let mut to_live: Vec<usize> = Vec::new();
        let mut row: usize = 0;
        while row < self.cellules_height
            invariant
                before.wf(),
                self@ == old(self)@,
                self@.grid == before,
                after == before.next().cells,
                self.cellules_width <= isize::MAX,
                self.cellules_height <= isize::MAX,
                row <= before.height,
                forall|k: int|
                    0 <= k < to_dead@.len() ==> (#[trigger] to_dead@[k]) < row * before.width
                        && to_dead@[k] < before.cells.len() && before.cells[to_dead@[k] as int]
                        == Cell::Alive,
                forall|k: int|
                    0 <= k < to_live@.len() ==> (#[trigger] to_live@[k]) < row * before.width
                        && to_live@[k] < before.cells.len() && before.cells[to_live@[k] as int]
                        == Cell::Dead,
                forall|r: int, c: int|
                    0 <= r < row && 0 <= c < before.width ==> (#[trigger] after[before.flat(r, c)]
                        == if lists(to_dead@, to_dead@.len() as int, before.flat(r, c)) {
                        Cell::Dead
                    } else if lists(to_live@, to_live@.len() as int, before.flat(r, c)) {
                        Cell::Alive
                    } else {
                        before.cells[before.flat(r, c)]
                    }),
            decreases before.height - row,
        {
            let mut col: usize = 0;
            while col < self.cellules_width
                invariant
                    before.wf(),
                    self@ == old(self)@,
                    self@.grid == before,
                    after == before.next().cells,
                    self.cellules_width <= isize::MAX,
                    self.cellules_height <= isize::MAX,
                    row < before.height,
                    col <= before.width,
                    forall|k: int|
                        0 <= k < to_dead@.len() ==> (#[trigger] to_dead@[k]) < row * before.width
                            + col && to_dead@[k] < before.cells.len()
                            && before.cells[to_dead@[k] as int] == Cell::Alive,
                    forall|k: int|
                        0 <= k < to_live@.len() ==> (#[trigger] to_live@[k]) < row * before.width
                            + col && to_live@[k] < before.cells.len()
                            && before.cells[to_live@[k] as int] == Cell::Dead,
                    forall|r: int, c: int|
                        (0 <= r < row && 0 <= c < before.width) || (r == row && 0 <= c < col) ==> (
                        #[trigger] after[before.flat(r, c)] == if lists(
                            to_dead@,
                            to_dead@.len() as int,
                            before.flat(r, c),
                        ) {
                            Cell::Dead
                        } else if lists(to_live@, to_live@.len() as int, before.flat(r, c)) {
                            Cell::Alive
                        } else {
                            before.cells[before.flat(r, c)]
                        }),
                decreases before.width - col,
            {
                let around = self.neighbors(row as isize, col as isize);
                let live_neighbors = count_alive(&around);
                let current_idx = self.row_col_as_idx(row as isize, col as isize);
                let ghost dead_so_far = to_dead@;
                let ghost live_so_far = to_live@;
                proof {
                    lemma_wrapped_identity(row as int, before.height as int);
                    lemma_wrapped_identity(col as int, before.width as int);
                    lemma_flat_in_range(before, row as int, col as int);
                    assert(current_idx == before.flat(row as int, col as int));
                    assert(after[current_idx as int] == before.next_cell(current_idx as int));
                    // no earlier position has this place
                    assert forall|r: int, c: int|
                        ((0 <= r < row && 0 <= c < before.width) || (r == row && 0 <= c < col))
                        implies before.flat(r, c) != current_idx by {
                        lemma_flat_in_range(before, r, c);
                    }
                    assert(!lists(dead_so_far, dead_so_far.len() as int, current_idx as int));
                    assert(!lists(live_so_far, live_so_far.len() as int, current_idx as int));
                }
                if self.cellules[current_idx].is_alive() {
                    if live_neighbors < 2 || live_neighbors > 3 {
                        to_dead.push(current_idx);
                    }
                } else if live_neighbors == 3 {
                    to_live.push(current_idx);
                }
                proof {
                    assert forall|r: int, c: int|
                        ((0 <= r < row && 0 <= c < before.width) || (r == row && 0 <= c < col + 1))
                        implies (#[trigger] after[before.flat(r, c)] == if lists(
                        to_dead@,
                        to_dead@.len() as int,
                        before.flat(r, c),
                    ) {
                        Cell::Dead
                    } else if lists(to_live@, to_live@.len() as int, before.flat(r, c)) {
                        Cell::Alive
                    } else {
                        before.cells[before.flat(r, c)]
                    }) by {
                        let i = before.flat(r, c);
                        if to_dead@.len() > dead_so_far.len() {
                            lemma_lists_push(dead_so_far, current_idx, i);
                        }
                        if to_live@.len() > live_so_far.len() {
                            lemma_lists_push(live_so_far, current_idx, i);
                        }
                    }
                }
                col = col + 1;
            }
            assert(row * before.width + before.width == (row + 1) * before.width)
                by (nonlinear_arith);
            row = row + 1;
        }
        proof {
            assert forall|i: int| 0 <= i < before.cells.len() implies after[i] == (if lists(
                to_dead@,
                to_dead@.len() as int,
                i,
            ) {
                Cell::Dead
            } else if lists(to_live@, to_live@.len() as int, i) {
                Cell::Alive
            } else {
                before.cells[i]
            }) by {
                lemma_position_of_place(before, i);
                assert(before.flat(before.row_of(i), before.col_of(i)) == i);
            }
        }
        let mut k: usize = 0;
        while k < to_dead.len()
            invariant
                k <= to_dead@.len(),
                before.wf(),
                self@.grid.wf(),
                self@.active == old(self)@.active,
                self@.grid.width == before.width,
                self@.grid.height == before.height,
                self.cellules_width <= isize::MAX,
                self.cellules_height <= isize::MAX,
                forall|j: int|
                    0 <= j < to_dead@.len() ==> (#[trigger] to_dead@[j]) < before.cells.len(),
                forall|i: int|
                    0 <= i < before.cells.len() ==> self@.grid.cells[i] == (if lists(
                        to_dead@,
                        k as int,
                        i,
                    ) {
                        Cell::Dead
                    } else {
                        before.cells[i]
                    }),
            decreases to_dead@.len() - k,
        {
            let index = to_dead[k];
            let ghost so_far = self@.grid.cells;
            self.cellules[index] = Cell::Dead;
            proof {
                assert forall|i: int| 0 <= i < before.cells.len() implies self@.grid.cells[i] == (
                if lists(to_dead@, k + 1, i) {
                    Cell::Dead
                } else {
                    before.cells[i]
                }) by {
                    lemma_lists_step(to_dead@, k as int, i);
                    assert(so_far[i] == (if lists(to_dead@, k as int, i) {
                        Cell::Dead
                    } else {
                        before.cells[i]
                    }));
                }
            }
            k = k + 1;
        }
        let ghost between = self@.grid.cells;
        let mut k: usize = 0;
        while k < to_live.len()
            invariant
                k <= to_live@.len(),
                before.wf(),
                self@.grid.wf(),
                self@.active == old(self)@.active,
                self@.grid.width == before.width,
                self@.grid.height == before.height,
                self.cellules_width <= isize::MAX,
                self.cellules_height <= isize::MAX,
                between.len() == before.cells.len(),
                forall|j: int|
                    0 <= j < to_live@.len() ==> (#[trigger] to_live@[j]) < before.cells.len(),
                forall|i: int|
                    0 <= i < before.cells.len() ==> self@.grid.cells[i] == (if lists(
                        to_live@,
                        k as int,
                        i,
                    ) {
                        Cell::Alive
                    } else {
                        between[i]
                    }),
            decreases to_live@.len() - k,
        {
            let index = to_live[k];
            let ghost so_far = self@.grid.cells;
            self.cellules[index] = Cell::Alive;
            proof {
                assert forall|i: int| 0 <= i < before.cells.len() implies self@.grid.cells[i] == (
                if lists(to_live@, k + 1, i) {
                    Cell::Alive
                } else {
                    between[i]
                }) by {
                    lemma_lists_step(to_live@, k as int, i);
                    assert(so_far[i] == (if lists(to_live@, k as int, i) {
                        Cell::Alive
                    } else {
                        between[i]
                    }));
                }
            }
            k = k + 1;
        }
        proof {
            assert forall|i: int| 0 <= i < before.cells.len() implies self@.grid.cells[i]
                == after[i] by {
                if lists(to_dead@, to_dead@.len() as int, i) && lists(
                    to_live@,
                    to_live@.len() as int,
                    i,
                ) {
                    let j = choose|j: int|
                        0 <= j < to_dead@.len() && j < to_dead@.len() && #[trigger] to_dead@[j]
                            == i;
                    let l = choose|l: int|
                        0 <= l < to_live@.len() && l < to_live@.len() && #[trigger] to_live@[l]
                            == i;
                    assert(before.cells[to_dead@[j] as int] == Cell::Alive);
                    assert(before.cells[to_live@[l] as int] == Cell::Dead);
                }
            }
            assert(self@.grid.cells =~= after);
        }
    }

    /// Answers one message of the driver and says whether the driver is to
    /// redraw. A tick advances the game only while it runs; a step always
    /// does. Starting and stopping set the flag and change no cell. The
    /// place of a toggled cell must be one of the grid.
    pub fn update(&mut self, msg: Msg) -> (redraw: bool)
        requires
            msg matches Msg::ToggleCellule(index) ==> index < old(self)@.grid.cells.len(),
        ensures
            final(self)@.grid.wf(),
            redraw == old(self)@.redraws(msg),
            msg != Msg::Random ==> final(self)@ == old(self)@.after(msg),
            final(self)@.active == old(self)@.after(msg).active,
            final(self)@.grid.width == old(self)@.grid.width,
            final(self)@.grid.height == old(self)@.grid.height,
    {
        proof {
            use_type_invariant(&*self);
        }
        match msg {
            Msg::Tick => {
                if self.active {
                    self.step();
                    true
                } else {
                    false
                }
            },
            Msg::ToggleCellule(index) => {
                let mut cellule = self.cellules[index];
                cellule.toggle();
                self.cellules[index] = cellule;
                true
            },
            Msg::Start => {
                self.active = true;
                false
            },
            Msg::Stop => {
                self.active = false;
                false
            },
            Msg::Step => {
                self.step();
                true
            },
            Msg::Reset => {
                self.reset();
                true
            },
            Msg::Random => {
                self.random_mutate();
                true
            },
        }
    }
}

} // verus!
