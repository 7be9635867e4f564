//! The universe: the grid that the engine owns, and the operations that
//! seed it, change it, advance it and render it.

use crate::cell::Cell;
use crate::error::GridError;
use crate::grid::{lemma_at_in_range, lemma_flat_in_range, lemma_position_of_place, Grid};
use crate::motif::{
    cell_count,
    dead_cells,
    dimension_error,
    lay_out,
    make_cells,
    motif_cells,
    motif_error,
    CellMotif,
};
use crate::torus::{lemma_wrapped_pred, lemma_wrapped_step, wrapped};
use vstd::arithmetic::div_mod::lemma_fundamental_div_mod_converse;
use vstd::prelude::*;

verus! {

/// What one generation changed: the positions of the cells that came alive
/// and of those that died, each in row-major order.
#[derive(Debug, PartialEq, Eq)]
pub struct ChangeSet {
    pub born: Vec<(u32, u32)>,
    pub died: Vec<(u32, u32)>,
}

/// Whether `x` is among the first `k + 1` items, told from the first `k`.
proof fn lemma_take_contains_step<T>(s: Seq<T>, k: int, x: T)
    requires
        0 <= k < s.len(),
    ensures
        s.take(k + 1).contains(x) <==> s.take(k).contains(x) || s[k] == x,
{
    let more = s.take(k + 1);
    let fewer = s.take(k);
    if more.contains(x) {
        let j = choose|j: int| 0 <= j < more.len() && more[j] == x;
        if j < k {
            assert(fewer[j] == x);
        }
    }
    if fewer.contains(x) {
        let j = choose|j: int| 0 <= j < fewer.len() && fewer[j] == x;
        assert(more[j] == x);
    }
    if s[k] == x {
        assert(more[k] == x);
    }
}

/// A toroidal grid of cells.
pub struct Universe {
    width: u32,
    height: u32,
    cells: Vec<Cell>,
}

impl View for Universe {
    type V = Grid;

    closed spec fn view(&self) -> Grid {
        Grid { width: self.width as nat, height: self.height as nat, cells: self.cells@ }
    }
}

impl Universe {
    /// Holds of every universe there is: both dimensions are positive and
    /// there is exactly one cell for each position.
    #[verifier::type_invariant]
    closed spec fn inv(&self) -> bool {
        self@.wf()
    }

    /// A universe of the given dimensions seeded with the motif. The coins
    /// of the random motif are tossed here, so of a random universe only the
    /// dimensions are fixed.
    pub fn new(width: u32, height: u32, motif: CellMotif) -> (made: Result<Universe, GridError>)
        ensures
            match made {
                Ok(universe) => {
                    &&& motif_error(width as nat, height as nat, motif, width * height) is None
                    &&& universe@.wf()
                    &&& universe@.width == width
                    &&& universe@.height == height
                    &&& motif != CellMotif::Random ==> universe@.cells == motif_cells(
                        width as int,
                        height as int,
                        motif,
                        Seq::empty(),
                    )
                },
                Err(e) => motif_error(width as nat, height as nat, motif, width * height)
                    == Some(e),
            },
    {
        match make_cells(width, height, motif) {
            Ok(cells) => Ok(Universe { width, height, cells }),
            Err(e) => Err(e),
        }
    }

    /// A universe of the given dimensions seeded with the motif, with the
    /// coin tosses of the random motif supplied by the caller: the cell at
    /// place `i` of the row-major order is alive if `draws[i]` is true.
    pub fn seeded(width: u32, height: u32, motif: CellMotif, draws: &[bool]) -> (made: Result<
        Universe,
        GridError,
    >)
        ensures
            match made {
                Ok(universe) => {
                    &&& motif_error(width as nat, height as nat, motif, draws@.len() as int) is None
                    &&& universe@.wf()
                    &&& universe@ == (Grid {
                        width: width as nat,
                        height: height as nat,
                        cells: motif_cells(width as int, height as int, motif, draws@),
                    })
                },
                Err(e) => motif_error(width as nat, height as nat, motif, draws@.len() as int)
                    == Some(e),
            },
    {
        match lay_out(width, height, motif, draws) {
            Ok(cells) => Ok(Universe { width, height, cells }),
            Err(e) => Err(e),
        }
    }

    /// A universe of the given dimensions in which every cell is dead.
    pub fn blank(width: u32, height: u32) -> (made: Result<Universe, GridError>)
        ensures
            match made {
                Ok(universe) => {
                    &&& dimension_error(width as nat, height as nat) is None
                    &&& universe@.wf()
                    &&& universe@ == Grid::blank(width as nat, height as nat)
                },
                Err(e) => dimension_error(width as nat, height as nat) == Some(e),
            },
    {
        match cell_count(width, height) {
            Ok(count) => {
                let cells = dead_cells(count);
                assert(cells@ =~= Grid::blank(width as nat, height as nat).cells);
                Ok(Universe { width, height, cells })
            },
            Err(e) => Err(e),
        }
    }

    /// The number of columns.
    pub fn width(&self) -> (width: u32)
        ensures
            width == self@.width,
            width > 0,
    {
        proof {
            use_type_invariant(self);
        }
        self.width
    }

    /// The number of rows.
    pub fn height(&self) -> (height: u32)
        ensures
            height == self@.height,
            height > 0,
    {
        proof {
            use_type_invariant(self);
        }
        self.height
    }

    /// The cells in row-major order, to read.
    pub fn cells(&self) -> (cells: &Vec<Cell>)
        ensures
            cells@ == self@.cells,
            self@.wf(),
    {
        proof {
            use_type_invariant(self);
        }
        &self.cells
    }

    /// The cells in row-major order, as a slice.
    pub fn get_cells(&self) -> (cells: &[Cell])
        ensures
            cells@ == self@.cells,
            self@.wf(),
    {
        proof {
            use_type_invariant(self);
        }
        self.cells.as_slice()
    }

    /// The place of the position `(row, column)` in the row-major order.
    pub fn get_index(&self, row: u32, column: u32) -> (index: usize)
        requires
            self@.in_range(row as int, column as int),
        ensures
            index == self@.flat(row as int, column as int),
            index < self@.cells.len(),
    {
        proof {
            use_type_invariant(self);
            lemma_flat_in_range(self@, row as int, column as int);
            assert(self@.cells.len() == self.cells.len() <= usize::MAX);
        }
        (row as usize) * (self.width as usize) + (column as usize)
    }

    /// The weight of the cell at a position of the grid, given in 64 bits.
    fn weight_at(&self, row: u64, column: u64) -> (weight: u8)
        requires
            self@.in_range(row as int, column as int),
        ensures
            weight == self@.cells[self@.flat(row as int, column as int)].weight(),
    {
        proof {
            use_type_invariant(self);
            lemma_flat_in_range(self@, row as int, column as int);
            assert(self@.cells.len() == self.cells.len() <= usize::MAX);
        }
        let index = (row as usize) * (self.width as usize) + (column as usize);
        self.cells[index].to_u8()
    }

    /// The number of live cells among the eight neighbours of `(row,
    /// column)` on the torus. The coordinates are wrapped onto the grid, so
    /// every pair is accepted.
    pub fn live_neighbor_count(&self, row: u32, column: u32) -> (count: u8)
        ensures
            count == self@.live_count(row as int, column as int),
            count <= 8,
    {
        proof {
            use_type_invariant(self);
        }
        let h: u64 = self.height as u64;
        let w: u64 = self.width as u64;
        let r: u64 = (row % self.height) as u64;
        let c: u64 = (column % self.width) as u64;
        let north: u64 = (r + h - 1) % h;
        let south: u64 = (r + 1) % h;
        let west: u64 = (c + w - 1) % w;
        let east: u64 = (c + 1) % w;
        proof {
            let hi = h as int;
            let wi = w as int;
            lemma_wrapped_step(row as int, -1, hi);
            lemma_wrapped_step(row as int, 1, hi);
            lemma_wrapped_step(column as int, -1, wi);
            lemma_wrapped_step(column as int, 1, wi);
            lemma_wrapped_pred(r as int, hi);
            lemma_wrapped_pred(c as int, wi);
            assert(north == wrapped(row - 1, hi));
            assert(south == wrapped(row + 1, hi));
            assert(west == wrapped(column - 1, wi));
            assert(east == wrapped(column + 1, wi));
            assert(r == wrapped(row as int, hi));
            assert(c == wrapped(column as int, wi));
            lemma_at_in_range(self@, row - 1, column - 1);
            lemma_at_in_range(self@, row as int, column as int);
            lemma_at_in_range(self@, row + 1, column + 1);
        }
        let count = self.weight_at(north, west) + self.weight_at(north, c) + self.weight_at(
            north,
            east,
        ) + self.weight_at(r, west) + self.weight_at(r, east) + self.weight_at(south, west)
            + self.weight_at(south, c) + self.weight_at(south, east);
        count
    }

    /// Gives the universe a new width. Every cell of the resized universe is
    /// dead: nothing is carried over. A refused request leaves the universe
    /// as it was.
    pub fn set_width(&mut self, width: u32) -> (done: Result<(), GridError>)
        ensures
            final(self)@.wf(),
            match done {
                Ok(_) => {
                    &&& dimension_error(width as nat, old(self)@.height) is None
                    &&& final(self)@ == Grid::blank(width as nat, old(self)@.height)
                },
                Err(e) => {
                    &&& dimension_error(width as nat, old(self)@.height) == Some(e)
                    &&& final(self)@ == old(self)@
                },
            },
    {
        proof {
            use_type_invariant(&*self);
        }
        let height = self.height;
        match cell_count(width, height) {
            Ok(count) => {
                let cells = dead_cells(count);
                assert(cells@ =~= Grid::blank(width as nat, height as nat).cells);
                *self = Universe { width, height, cells };
                Ok(())
            },
            Err(e) => Err(e),
        }
    }

    /// Gives the universe a new height. Every cell of the resized universe
    /// is dead: nothing is carried over. A refused request leaves the
    /// universe as it was.
    pub fn set_height(&mut self, height: u32) -> (done: Result<(), GridError>)
        ensures
            final(self)@.wf(),
            match done {
                Ok(_) => {
                    &&& dimension_error(old(self)@.width, height as nat) is None
                    &&& final(self)@ == Grid::blank(old(self)@.width, height as nat)
                },
                Err(e) => {
                    &&& dimension_error(old(self)@.width, height as nat) == Some(e)
                    &&& final(self)@ == old(self)@
                },
            },
    {
        proof {
            use_type_invariant(&*self);
        }
        let width = self.width;
        match cell_count(width, height) {
            Ok(count) => {
                let cells = dead_cells(count);
                assert(cells@ =~= Grid::blank(width as nat, height as nat).cells);
                *self = Universe { width, height, cells };
                Ok(())
            },
            Err(e) => Err(e),
        }
    }

    /// Gives the universe a new width, a new height or both; a dimension not
    /// given stays. Every cell of the resized universe is dead, also where
    /// the dimensions asked for are those it has. With neither given, or
    /// with a request that is refused, the universe stays as it was.
    pub fn resize(&mut self, width: Option<u32>, height: Option<u32>) -> (done: Result<
        (),
        GridError,
    >)
        ensures
            final(self)@.wf(),
            width is None && height is None ==> done is Ok && final(self)@ == old(self)@,
            width is Some || height is Some ==> ({
                let w = if let Some(given) = width {
                    given as nat
                } else {
                    old(self)@.width
                };
                let h = if let Some(given) = height {
                    given as nat
                } else {
                    old(self)@.height
                };
                match done {
                    Ok(_) => dimension_error(w, h) is None && final(self)@ == Grid::blank(w, h),
                    Err(e) => dimension_error(w, h) == Some(e) && final(self)@ == old(self)@,
                }
            }),
    {
        proof {
            use_type_invariant(&*self);
        }
        if width.is_none() && height.is_none() {
            return Ok(());
        }
        let new_width = match width {
            Some(given) => given,
            None => self.width,
        };
        let new_height = match height {
            Some(given) => given,
            None => self.height,
        };
        match cell_count(new_width, new_height) {
            Ok(count) => {
                let cells = dead_cells(count);
                assert(cells@ =~= Grid::blank(new_width as nat, new_height as nat).cells);
                *self = Universe { width: new_width, height: new_height, cells };
                Ok(())
            },
            Err(e) => Err(e),
        }
    }

    /// Flips the cell at `(row, column)`. The coordinates are taken as they
    /// are, not wrapped.
    pub fn toggle_cell(&mut self, row: u32, column: u32)
        requires
            old(self)@.in_range(row as int, column as int),
        ensures
            final(self)@ == old(self)@.toggled(row as int, column as int),
            final(self)@.wf(),
    {
        proof {
            use_type_invariant(&*self);
        }
        let index = self.get_index(row, column);
        let mut cell = self.cells[index];
        cell.toggle();
        self.cells[index] = cell;
        assert(self@.cells =~= old(self)@.toggled(row as int, column as int).cells);
    }

    /// Makes the cells at the listed positions alive and leaves every other
    /// cell as it is.
    pub fn set_cells(&mut self, cells: &[(u32, u32)])
        requires
            forall|k: int|
                0 <= k < cells@.len() ==> old(self)@.in_range(
                    (#[trigger] cells@[k]).0 as int,
                    cells@[k].1 as int,
                ),
        ensures
            final(self)@ == old(self)@.with_alive(cells@),
            final(self)@.wf(),
    {
        proof {
            use_type_invariant(&*self);
        }
        let ghost before = self@;
        let mut k: usize = 0;
        assert(cells@.take(0) =~= Seq::<(u32, u32)>::empty());
        while k < cells.len()
            invariant
                k <= cells@.len(),
                before.wf(),
                self@.wf(),
                self@.width == before.width,
                self@.height == before.height,
                forall|j: int|
                    0 <= j < cells@.len() ==> before.in_range(
                        (#[trigger] cells@[j]).0 as int,
                        cells@[j].1 as int,
                    ),
                self@.cells == before.with_alive(cells@.take(k as int)).cells,
            decreases cells@.len() - k,
        {
            let (row, column) = cells[k];
            let index = self.get_index(row, column);
            let ghost so_far = self@;
            self.cells[index] = Cell::Alive;
            proof {
                let done = cells@.take(k as int);
                let more = cells@.take(k + 1);
                assert forall|i: int| 0 <= i < before.cells.len() implies self@.cells[i]
                    == before.with_alive(more).cells[i] by {
                    let place = (before.row_of(i) as u32, before.col_of(i) as u32);
                    lemma_take_contains_step(cells@, k as int, place);
                    lemma_position_of_place(before, i);
                    lemma_flat_in_range(before, row as int, column as int);
                    assert(so_far.cells[i] == before.with_alive(done).cells[i]);
                }
                assert(self@.cells =~= before.with_alive(more).cells);
            }
            k = k + 1;
        }
        assert(cells@.take(cells@.len() as int) =~= cells@);
    }

    /// Advances the universe by one generation and reports what changed.
    /// Every cell of the new generation is computed from the old one alone:
    /// the new cells are gathered apart and replace the old ones only when
    /// all of them are known.
    pub fn tick(&mut self) -> (changes: ChangeSet)
        ensures
            final(self)@ == old(self)@.next(),
            final(self)@.wf(),
            changes.born@ == old(self)@.births(),
            changes.died@ == old(self)@.deaths(),
    {
        proof {
            use_type_invariant(&*self);
        }
        let ghost before = self@;
        let ghost after = before.next().cells;
        let mut next: Vec<Cell> = Vec::new();
        let mut born: Vec<(u32, u32)> = Vec::new();
        let mut died: Vec<(u32, u32)> = Vec::new();
        let mut row: u32 = 0;
        while row < self.height
            invariant
                before.wf(),
                self@ == before,
                after == before.next().cells,
                row <= before.height,
                next@.len() == row * before.width,
                forall|i: int| 0 <= i < next@.len() ==> next@[i] == after[i],
                born@ == before.changes_to(after, Cell::Alive, next@.len() as int),
                died@ == before.changes_to(after, Cell::Dead, next@.len() as int),
            decreases before.height - row,
        {
            let mut column: u32 = 0;
            while column < self.width
                invariant
                    before.wf(),
                    self@ == before,
                    after == before.next().cells,
                    row < before.height,
                    column <= before.width,
                    next@.len() == row * before.width + column,
                    forall|i: int| 0 <= i < next@.len() ==> next@[i] == after[i],
                    born@ == before.changes_to(after, Cell::Alive, next@.len() as int),
                    died@ == before.changes_to(after, Cell::Dead, next@.len() as int),
                decreases before.width - column,
            {
                let index = self.get_index(row, column);
                let cell = self.cells[index];
                let live_neighbors = self.live_neighbor_count(row, column);
                let next_cell = cell.next_state(live_neighbors);
                proof {
                    lemma_flat_in_range(before, row as int, column as int);
                    assert(after[index as int] == before.next_cell(index as int));
                    assert(next_cell == after[index as int]);
                }
                if next_cell != cell {
                    match next_cell {
                        Cell::Alive => born.push((row, column)),
                        Cell::Dead => died.push((row, column)),
                    }
                }
                next.push(next_cell);
                column = column + 1;
            }
            assert(row * before.width + before.width == (row + 1) * before.width)
                by (nonlinear_arith);
            row = row + 1;
        }
        assert(next@.len() == before.cells.len()) by (nonlinear_arith)
            requires
                next@.len() == row * before.width,
                row == before.height,
                before.cells.len() == before.width * before.height,
        ;
        assert(next@ =~= after);
        self.cells = next;
        ChangeSet { born, died }
    }

    /// The universe as text: one line for each row, one glyph for each cell,
    /// a hollow square for a dead cell and a filled one for a live cell, and
    /// a line break after each row.
    pub fn render(&self) -> (text: String)
        ensures
            text@ == self@.text(),
    {
        proof {
            use_type_invariant(self);
        }
        let ghost grid = self@;
        let ghost line = grid.width as int + 1;
        let mut text = String::new();
        let mut row: u32 = 0;
        while row < self.height
            invariant
                grid.wf(),
                self@ == grid,
                line == grid.width + 1,
                row <= grid.height,
                text@.len() == row * line,
                forall|p: int| 0 <= p < text@.len() ==> text@[p] == grid.text_char(p),
            decreases grid.height - row,
        {
            let mut column: u32 = 0;
            while column < self.width
                invariant
                    grid.wf(),
                    self@ == grid,
                    line == grid.width + 1,
                    row < grid.height,
                    column <= grid.width,
                    text@.len() == row * line + column,
                    forall|p: int| 0 <= p < text@.len() ==> text@[p] == grid.text_char(p),
                decreases grid.width - column,
            {
                let index = self.get_index(row, column);
                proof {
                    reveal_strlit("\u{25FB}");
                    reveal_strlit("\u{25FC}");
                    lemma_fundamental_div_mod_converse(
                        row * line + column,
                        line,
                        row as int,
                        column as int,
                    );
                }
                match self.cells[index] {
                    Cell::Dead => text.append("\u{25FB}"),
                    Cell::Alive => text.append("\u{25FC}"),
                }
                column = column + 1;
            }
            proof {
                reveal_strlit("\n");
                lemma_fundamental_div_mod_converse(
                    row * line + column,
                    line,
                    row as int,
                    column as int,
                );
                assert(row * line + line == (row + 1) * line) by (nonlinear_arith);
            }
            text.append("\n");
            row = row + 1;
        }
        assert(text@.len() == grid.height * (grid.width + 1)) by (nonlinear_arith)
            requires
                text@.len() == row * line,
                row == grid.height,
                line == grid.width + 1,
        ;
        assert(text@ =~= grid.text());
        text
    }
}

} // verus!
