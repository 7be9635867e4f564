//! The mathematical model of the grid: its dimensions and its cells in
//! row-major order, with the neighbourhood, the next generation, the changes
//! between two generations and the rendered text defined on it.
//!
//! Nothing here runs. The executable types view themselves as a `Grid`, and
//! their contracts and the laws of the engine are stated over it.

use crate::cell::Cell;
use crate::torus::{
    lemma_wrapped_identity,
    lemma_wrapped_in_range,
    lemma_wrapped_period,
    wrapped,
};
use vstd::arithmetic::div_mod::{
    lemma_fundamental_div_mod,
    lemma_fundamental_div_mod_converse,
    lemma_mod_bound,
};
use vstd::prelude::*;

verus! {

/// A rectangular grid of cells. The cell in row `row` and column `col` is
/// `cells[row * width + col]`.
pub struct Grid {
    pub width: nat,
    pub height: nat,
    pub cells: Seq<Cell>,
}

impl Grid {
    /// Both dimensions are positive and there is exactly one cell for each
    /// position.
    pub open spec fn wf(self) -> bool {
        &&& self.width > 0
        &&& self.height > 0
        &&& self.cells.len() == self.width * self.height
    }

    /// Whether `(row, col)` is a position of the grid.
    pub open spec fn in_range(self, row: int, col: int) -> bool {
        0 <= row < self.height && 0 <= col < self.width
    }

    /// The place of `(row, col)` in the row-major cell sequence.
    pub open spec fn flat(self, row: int, col: int) -> int {
        row * self.width + col
    }

    /// The row of the cell at place `i` of the cell sequence.
    pub open spec fn row_of(self, i: int) -> int {
        i / (self.width as int)
    }

    /// The column of the cell at place `i` of the cell sequence.
    pub open spec fn col_of(self, i: int) -> int {
        i % (self.width as int)
    }

    /// The cell that `(row, col)` names on the torus: each coordinate is
    /// wrapped on its own, the row onto `0..height` and the column onto
    /// `0..width`.
    pub open spec fn at(self, row: int, col: int) -> Cell {
        self.cells[self.flat(wrapped(row, self.height as int), wrapped(col, self.width as int))]
    }

    /// The number of live cells among the eight neighbours of `(row, col)` on
    /// the torus. Each of the eight directions is sampled once, so on a grid
    /// that is one cell wide or high a cell is counted once for each
    /// direction that leads to it.
    pub open spec fn live_count(self, row: int, col: int) -> int {
        self.at(row - 1, col - 1).weight() + self.at(row - 1, col).weight() + self.at(
            row - 1,
            col + 1,
        ).weight() + self.at(row, col - 1).weight() + self.at(row, col + 1).weight() + self.at(
            row + 1,
            col - 1,
        ).weight() + self.at(row + 1, col).weight() + self.at(row + 1, col + 1).weight()
    }

    /// The state of the cell at place `i` in the next generation.
    pub open spec fn next_cell(self, i: int) -> Cell {
        self.cells[i].successor(self.live_count(self.row_of(i), self.col_of(i)))
    }

    /// The next generation: every cell follows the transition rule on the
    /// neighbours it has in this generation.
    pub open spec fn next(self) -> Grid {
        Grid {
            width: self.width,
            height: self.height,
            cells: Seq::new(self.cells.len(), |i: int| self.next_cell(i)),
        }
    }

    /// The grid with the cell at `(row, col)` flipped.
    pub open spec fn toggled(self, row: int, col: int) -> Grid {
        Grid {
            width: self.width,
            height: self.height,
            cells: self.cells.update(
                self.flat(row, col),
                self.cells[self.flat(row, col)].flipped(),
            ),
        }
    }

    /// The grid of the given dimensions in which every cell is dead.
    pub open spec fn blank(width: nat, height: nat) -> Grid {
        Grid { width, height, cells: Seq::new(width * height, |i: int| Cell::Dead) }
    }

    /// The grid with the cells at the listed positions alive and every other
    /// cell as it was.
    pub open spec fn with_alive(self, positions: Seq<(u32, u32)>) -> Grid {
        Grid {
            width: self.width,
            height: self.height,
            cells: Seq::new(
                self.cells.len(),
                |i: int|
                    if positions.contains((self.row_of(i) as u32, self.col_of(i) as u32)) {
                        Cell::Alive
                    } else {
                        self.cells[i]
                    },
            ),
        }
    }

    /// The positions, among the first `upto` places in row-major order, at
    /// which the cell differs from the one in `after` and the one in `after`
    /// is `to`; in row-major order.
    pub open spec fn changes_to(self, after: Seq<Cell>, to: Cell, upto: int) -> Seq<(u32, u32)>
        decreases upto,
    {
        if upto <= 0 {
            Seq::empty()
        } else {
            let i = upto - 1;
            let earlier = self.changes_to(after, to, i);
            if self.cells[i] != after[i] && after[i] == to {
                earlier.push((self.row_of(i) as u32, self.col_of(i) as u32))
            } else {
                earlier
            }
        }
    }

    /// The positions of the cells that are dead now and alive in the next
    /// generation, in row-major order.
    pub open spec fn births(self) -> Seq<(u32, u32)> {
        self.changes_to(self.next().cells, Cell::Alive, self.cells.len() as int)
    }

    /// The positions of the cells that are alive now and dead in the next
    /// generation, in row-major order.
    pub open spec fn deaths(self) -> Seq<(u32, u32)> {
        self.changes_to(self.next().cells, Cell::Dead, self.cells.len() as int)
    }

    /// The character at place `p` of the rendered text. A line is the glyphs
    /// of one row followed by a line break.
    pub open spec fn text_char(self, p: int) -> char {
        let row = p / (self.width as int + 1);
        let col = p % (self.width as int + 1);
        if col == self.width {
            '\n'
        } else {
            self.cells[self.flat(row, col)].glyph_of()
        }
    }

    /// The rendered text: one line for each row, from the first row to the
    /// last, and nothing else.
    pub open spec fn text(self) -> Seq<char> {
        Seq::new(self.height * (self.width + 1), |p: int| self.text_char(p))
    }
}

/// A position of the grid has a place in the cell sequence.
pub proof fn lemma_flat_in_range(grid: Grid, row: int, col: int)
    requires
        grid.wf(),
        grid.in_range(row, col),
    ensures
        0 <= row * grid.width <= grid.flat(row, col) < grid.cells.len(),
        grid.row_of(grid.flat(row, col)) == row,
        grid.col_of(grid.flat(row, col)) == col,
{
    let w = grid.width as int;
    let h = grid.height as int;
    assert(0 <= row * w <= row * w + col < w * h) by (nonlinear_arith)
        requires
            0 <= row < h,
            0 <= col < w,
    ;
    lemma_fundamental_div_mod_converse(row * w + col, w, row, col);
}

/// A place in the cell sequence is that of one position of the grid.
pub proof fn lemma_position_of_place(grid: Grid, i: int)
    requires
        grid.wf(),
        0 <= i < grid.cells.len(),
    ensures
        grid.in_range(grid.row_of(i), grid.col_of(i)),
        grid.flat(grid.row_of(i), grid.col_of(i)) == i,
{
    let w = grid.width as int;
    let h = grid.height as int;
    lemma_fundamental_div_mod(i, w);
    lemma_mod_bound(i, w);
    let q = i / w;
    let r = i % w;
    assert(0 <= q < h && q * w + r == i) by (nonlinear_arith)
        requires
            i == w * q + r,
            0 <= r < w,
            0 <= i < w * h,
    ;
}

/// On the torus every pair of integers names a cell of the grid.
pub proof fn lemma_at_in_range(grid: Grid, row: int, col: int)
    requires
        grid.wf(),
    ensures
        grid.in_range(wrapped(row, grid.height as int), wrapped(col, grid.width as int)),
        0 <= grid.flat(wrapped(row, grid.height as int), wrapped(col, grid.width as int))
            < grid.cells.len(),
{
    lemma_wrapped_in_range(row, grid.height as int);
    lemma_wrapped_in_range(col, grid.width as int);
    lemma_flat_in_range(grid, wrapped(row, grid.height as int), wrapped(col, grid.width as int));
}

/// A position of the grid names its own cell.
pub proof fn lemma_at_position(grid: Grid, row: int, col: int)
    requires
        grid.wf(),
        grid.in_range(row, col),
    ensures
        grid.at(row, col) == grid.cells[grid.flat(row, col)],
{
    lemma_wrapped_identity(row, grid.height as int);
    lemma_wrapped_identity(col, grid.width as int);
}

/// The torus has no boundary: a position and the one a full height further
/// down and a full width further right name the same cell.
pub proof fn lemma_at_wraps(grid: Grid, row: int, col: int)
    requires
        grid.wf(),
    ensures
        grid.at(row + grid.height, col + grid.width) == grid.at(row, col),
        grid.at(row + grid.height, col) == grid.at(row, col),
        grid.at(row, col + grid.width) == grid.at(row, col),
{
    lemma_wrapped_period(row, grid.height as int);
    lemma_wrapped_period(col, grid.width as int);
}

/// Wrap-around symmetry: the live-neighbour count of a position equals that
/// of the position a full height further down and a full width further
/// right.
pub proof fn lemma_live_count_wraps(grid: Grid, row: int, col: int)
    requires
        grid.wf(),
    ensures
        grid.live_count(row + grid.height, col + grid.width) == grid.live_count(row, col),
{
    lemma_at_wraps(grid, row - 1, col - 1);
    lemma_at_wraps(grid, row - 1, col);
    lemma_at_wraps(grid, row - 1, col + 1);
    lemma_at_wraps(grid, row, col - 1);
    lemma_at_wraps(grid, row, col + 1);
    lemma_at_wraps(grid, row + 1, col - 1);
    lemma_at_wraps(grid, row + 1, col);
    lemma_at_wraps(grid, row + 1, col + 1);
}

/// A cell has between none and eight live neighbours.
pub proof fn lemma_live_count_bounds(grid: Grid, row: int, col: int)
    ensures
        0 <= grid.live_count(row, col) <= 8,
{
}

/// The next generation has the dimensions of this one, and one cell for each
/// position.
pub proof fn lemma_next_wf(grid: Grid)
    requires
        grid.wf(),
    ensures
        grid.next().wf(),
        grid.next().width == grid.width,
        grid.next().height == grid.height,
        grid.next().cells.len() == grid.cells.len(),
{
}

/// Toggle round trip: toggling the same cell twice gives back the grid.
/// After the first toggle the cell differs from what it was, and no other
/// cell has changed.
pub proof fn lemma_toggle_twice(grid: Grid, row: int, col: int)
    requires
        grid.wf(),
        grid.in_range(row, col),
    ensures
        grid.toggled(row, col).toggled(row, col) == grid,
        grid.toggled(row, col).wf(),
        grid.toggled(row, col).at(row, col) != grid.at(row, col),
        forall|i: int|
            0 <= i < grid.cells.len() && i != grid.flat(row, col) ==> grid.toggled(
                row,
                col,
            ).cells[i] == grid.cells[i],
{
    lemma_flat_in_range(grid, row, col);
    lemma_at_position(grid, row, col);
    lemma_at_position(grid.toggled(row, col), row, col);
    assert(grid.toggled(row, col).toggled(row, col).cells =~= grid.cells);
}

/// The blank grid of positive dimensions is well formed.
pub proof fn lemma_blank_wf(width: nat, height: nat)
    requires
        width > 0,
        height > 0,
    ensures
        Grid::blank(width, height).wf(),
        Grid::blank(width, height).width == width,
        Grid::blank(width, height).height == height,
        forall|i: int|
            0 <= i < width * height ==> Grid::blank(width, height).cells[i] == Cell::Dead,
{
}

/// What `changes_to` lists: every entry is a position of the grid, among
/// the first `upto` places, whose cell differs from the one in `after`, which
/// is `to`; the entries stand in row-major order, so none occurs twice; and
/// every such position is listed.
pub proof fn lemma_changes_to(grid: Grid, after: Seq<Cell>, to: Cell, upto: int)
    requires
        grid.wf(),
        grid.width <= u32::MAX,
        grid.height <= u32::MAX,
        after.len() == grid.cells.len(),
        0 <= upto <= grid.cells.len(),
    ensures
        forall|k: int|
            0 <= k < grid.changes_to(after, to, upto).len() ==> {
                let (row, col) = #[trigger] grid.changes_to(after, to, upto)[k];
                &&& grid.in_range(row as int, col as int)
                &&& grid.flat(row as int, col as int) < upto
                &&& grid.cells[grid.flat(row as int, col as int)] != to
                &&& after[grid.flat(row as int, col as int)] == to
            },
        forall|j: int, k: int|
            0 <= j < k < grid.changes_to(after, to, upto).len() ==> {
                let (row_j, col_j) = #[trigger] grid.changes_to(after, to, upto)[j];
                let (row_k, col_k) = #[trigger] grid.changes_to(after, to, upto)[k];
                grid.flat(row_j as int, col_j as int) < grid.flat(row_k as int, col_k as int)
            },
        forall|row: u32, col: u32|
            grid.in_range(row as int, col as int) && grid.flat(row as int, col as int) < upto
                && grid.cells[grid.flat(row as int, col as int)] != to && after[grid.flat(
                row as int,
                col as int,
            )] == to ==> grid.changes_to(after, to, upto).contains((row, col)),
    decreases upto,
{
    if upto > 0 {
        let i = upto - 1;
        let earlier = grid.changes_to(after, to, i);
        let list = grid.changes_to(after, to, upto);
        lemma_changes_to(grid, after, to, i);
        lemma_position_of_place(grid, i);
        let here = (grid.row_of(i) as u32, grid.col_of(i) as u32);
        assert(grid.flat(here.0 as int, here.1 as int) == i);
        if grid.cells[i] != after[i] && after[i] == to {
            assert(list == earlier.push(here));
            assert forall|k: int| 0 <= k < list.len() implies {
                let (row, col) = #[trigger] list[k];
                &&& grid.in_range(row as int, col as int)
                &&& grid.flat(row as int, col as int) < upto
                &&& grid.cells[grid.flat(row as int, col as int)] != to
                &&& after[grid.flat(row as int, col as int)] == to
            } by {
                if k < earlier.len() {
                    assert(list[k] == earlier[k]);
                }
            }
            assert forall|j: int, k: int| 0 <= j < k < list.len() implies {
                let (row_j, col_j) = #[trigger] list[j];
                let (row_k, col_k) = #[trigger] list[k];
                grid.flat(row_j as int, col_j as int) < grid.flat(row_k as int, col_k as int)
            } by {
                assert(list[j] == earlier[j]);
                if k < earlier.len() {
                    assert(list[k] == earlier[k]);
                }
            }
        } else {
            assert(list == earlier);
        }
        assert forall|row: u32, col: u32|
            grid.in_range(row as int, col as int) && grid.flat(row as int, col as int) < upto
                && grid.cells[grid.flat(row as int, col as int)] != to && after[grid.flat(
                row as int,
                col as int,
            )] == to implies list.contains((row, col)) by {
            if grid.flat(row as int, col as int) == i {
                lemma_flat_in_range(grid, row as int, col as int);
                assert((row, col) == here);
                assert(list[earlier.len() as int] == here);
            } else {
                assert(earlier.contains((row, col)));
                let k = choose|k: int| 0 <= k < earlier.len() && earlier[k] == (row, col);
                assert(list[k] == (row, col));
            }
        }
    }
}

/// What a generation reports as born: exactly the positions whose cell is
/// dead now and alive next, each once, in row-major order. And as died:
/// exactly the positions whose cell is alive now and dead next, likewise.
pub proof fn lemma_births_and_deaths(grid: Grid)
    requires
        grid.wf(),
        grid.width <= u32::MAX,
        grid.height <= u32::MAX,
    ensures
        forall|row: u32, col: u32|
            grid.in_range(row as int, col as int) ==> (grid.births().contains((row, col))
                <==> grid.at(row as int, col as int) == Cell::Dead && grid.next().at(
                row as int,
                col as int,
            ) == Cell::Alive),
        forall|row: u32, col: u32|
            grid.in_range(row as int, col as int) ==> (grid.deaths().contains((row, col))
                <==> grid.at(row as int, col as int) == Cell::Alive && grid.next().at(
                row as int,
                col as int,
            ) == Cell::Dead),
        forall|k: int|
            0 <= k < grid.births().len() ==> grid.in_range(
                (#[trigger] grid.births()[k]).0 as int,
                grid.births()[k].1 as int,
            ),
        forall|k: int|
            0 <= k < grid.deaths().len() ==> grid.in_range(
                (#[trigger] grid.deaths()[k]).0 as int,
                grid.deaths()[k].1 as int,
            ),
        forall|j: int, k: int|
            0 <= j < k < grid.births().len() ==> grid.flat(
                (#[trigger] grid.births()[j]).0 as int,
                grid.births()[j].1 as int,
            ) < grid.flat((#[trigger] grid.births()[k]).0 as int, grid.births()[k].1 as int),
        forall|j: int, k: int|
            0 <= j < k < grid.deaths().len() ==> grid.flat(
                (#[trigger] grid.deaths()[j]).0 as int,
                grid.deaths()[j].1 as int,
            ) < grid.flat((#[trigger] grid.deaths()[k]).0 as int, grid.deaths()[k].1 as int),
{
    let after = grid.next().cells;
    let n = grid.cells.len() as int;
    lemma_changes_to(grid, after, Cell::Alive, n);
    lemma_changes_to(grid, after, Cell::Dead, n);
    assert forall|row: u32, col: u32| grid.in_range(row as int, col as int) implies (
    grid.births().contains((row, col)) <==> grid.at(row as int, col as int) == Cell::Dead
        && grid.next().at(row as int, col as int) == Cell::Alive) by {
        lemma_flat_in_range(grid, row as int, col as int);
        lemma_at_position(grid, row as int, col as int);
        lemma_at_position(grid.next(), row as int, col as int);
        if grid.births().contains((row, col)) {
            let k = choose|k: int| 0 <= k < grid.births().len() && grid.births()[k] == (row, col);
            assert(grid.births()[k] == (row, col));
        }
    }
    assert forall|row: u32, col: u32| grid.in_range(row as int, col as int) implies (
    grid.deaths().contains((row, col)) <==> grid.at(row as int, col as int) == Cell::Alive
        && grid.next().at(row as int, col as int) == Cell::Dead) by {
        lemma_flat_in_range(grid, row as int, col as int);
        lemma_at_position(grid, row as int, col as int);
        lemma_at_position(grid.next(), row as int, col as int);
        if grid.deaths().contains((row, col)) {
            let k = choose|k: int| 0 <= k < grid.deaths().len() && grid.deaths()[k] == (row, col);
            assert(grid.deaths()[k] == (row, col));
        }
    }
}

/// The place in the rendered text of column `col` of the line of row `row`,
/// where column `width` is the line break.
proof fn lemma_text_place(grid: Grid, row: int, col: int)
    requires
        grid.wf(),
        0 <= row < grid.height,
        0 <= col <= grid.width,
    ensures
        0 <= row * (grid.width + 1) + col < grid.height * (grid.width + 1),
        (row * (grid.width + 1) + col) / (grid.width as int + 1) == row,
        (row * (grid.width + 1) + col) % (grid.width as int + 1) == col,
{
    let line = grid.width as int + 1;
    assert(0 <= row * line + col < grid.height * line) by (nonlinear_arith)
        requires
            0 <= row < grid.height,
            0 <= col < line,
    ;
    lemma_fundamental_div_mod_converse(row * line + col, line, row, col);
}

/// The shape of the rendered text: it has one line for each row; each line
/// holds the glyphs of the cells of its row, from the first column to the
/// last, and then a line break.
pub proof fn lemma_text_shape(grid: Grid)
    requires
        grid.wf(),
    ensures
        grid.text().len() == grid.height * (grid.width + 1),
        forall|row: int, col: int|
            grid.in_range(row, col) ==> #[trigger] grid.text()[row * (grid.width + 1) + col]
                == grid.at(row, col).glyph_of(),
        forall|row: int|
            0 <= row < grid.height ==> #[trigger] grid.text()[row * (grid.width + 1) + grid.width]
                == '\n',
{
    assert forall|row: int, col: int| grid.in_range(row, col) implies #[trigger] grid.text()[row
        * (grid.width + 1) + col] == grid.at(row, col).glyph_of() by {
        lemma_at_position(grid, row, col);
        lemma_text_place(grid, row, col);
    }
    assert forall|row: int| 0 <= row < grid.height implies #[trigger] grid.text()[row * (grid.width
        + 1) + grid.width] == '\n' by {
        lemma_text_place(grid, row, grid.width as int);
    }
}

/// Rendering is repeatable: two texts rendered from the same grid are the
/// same text.
pub proof fn lemma_render_repeatable(grid: Grid, first: Seq<char>, second: Seq<char>)
    requires
        first == grid.text(),
        second == grid.text(),
    ensures
        first == second,
{
}

} // verus!
