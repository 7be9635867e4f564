//! The motifs with which a grid can be seeded, and the cells they prescribe.

use crate::cell::Cell;
use crate::error::GridError;
use crate::random::tosses;
use vstd::prelude::*;

verus! {

/// A way to fill a grid with its first generation.
#[derive(Clone, Copy, Debug, PartialEq, Eq, Structural)]
pub enum CellMotif {
    /// The cell at place `i` of the row-major order is alive if `i` is a
    /// multiple of 2 or of 7.
    Lines,
    /// A glider in the top left corner: the cells at the places `0`,
    /// `width + 1`, `width + 2`, `2 * width` and `2 * width + 1` are alive.
    Spaceship,
    /// Each cell is alive or dead by the toss of a coin.
    Random,
}

/// The largest number of cells a grid can have.
pub const MAX_CELLS: u32 = 0xFFFF_FFFF;

/// Why no grid can have these dimensions, if there is a reason.
pub open spec fn dimension_error(width: nat, height: nat) -> Option<GridError> {
    if width == 0 || height == 0 {
        Some(GridError::InvalidDimension)
    } else if width * height > MAX_CELLS {
        Some(GridError::GridTooLarge)
    } else {
        None
    }
}

/// Why the motif cannot be laid out on a grid of these dimensions with
/// `draws` coin tosses at hand, if there is a reason. The dimensions are
/// judged first. The glider needs its last cell, at place `2 * width + 1`,
/// to lie on the grid; the random motif needs one toss for each cell.
pub open spec fn motif_error(width: nat, height: nat, motif: CellMotif, draws: int) -> Option<
    GridError,
> {
    if dimension_error(width, height) is Some {
        dimension_error(width, height)
    } else {
        match motif {
            CellMotif::Lines => None,
            CellMotif::Spaceship => if width * height > 2 * width + 1 {
                None
            } else {
                Some(GridError::PatternTooSmall)
            },
            CellMotif::Random => if draws >= width * height {
                None
            } else {
                Some(GridError::TooFewDraws)
            },
        }
    }
}

/// The cell that the motif prescribes at place `i` of the row-major order of
/// a grid that is `width` cells wide. The random motif reads the `i`-th
/// toss: the cell is alive if the toss came up true.
pub open spec fn motif_cell(width: int, motif: CellMotif, draws: Seq<bool>, i: int) -> Cell {
    match motif {
        CellMotif::Lines => if i % 2 == 0 || i % 7 == 0 {
            Cell::Alive
        } else {
            Cell::Dead
        },
        CellMotif::Spaceship => if i == 0 || i == width + 1 || i == width + 2 || i == 2 * width || i
            == 2 * width + 1 {
            Cell::Alive
        } else {
            Cell::Dead
        },
        CellMotif::Random => if draws[i] {
            Cell::Alive
        } else {
            Cell::Dead
        },
    }
}

/// The cells that the motif prescribes for a grid of the given dimensions,
/// in row-major order.
pub open spec fn motif_cells(width: int, height: int, motif: CellMotif, draws: Seq<bool>) -> Seq<
    Cell,
> {
    Seq::new((width * height) as nat, |i: int| motif_cell(width, motif, draws, i))
}

/// Checks that a grid can have these dimensions and returns its number of
/// cells.
pub fn cell_count(width: u32, height: u32) -> (count: Result<usize, GridError>)
    ensures
        match count {
            Ok(n) => dimension_error(width as nat, height as nat) is None && n == width * height,
            Err(e) => dimension_error(width as nat, height as nat) == Some(e),
        },
{
    if width == 0 || height == 0 {
        return Err(GridError::InvalidDimension);
    }
    assert(width * height <= 0xFFFF_FFFF * 0xFFFF_FFFF) by (nonlinear_arith)
        requires
            width <= 0xFFFF_FFFF,
            height <= 0xFFFF_FFFF,
    ;
    let count: u64 = (width as u64) * (height as u64);
    if count > MAX_CELLS as u64 {
        return Err(GridError::GridTooLarge);
    }
    Ok(count as usize)
}

/// As many dead cells as asked for.
pub fn dead_cells(count: usize) -> (cells: Vec<Cell>)
    ensures
        cells@.len() == count,
        forall|i: int| 0 <= i < count ==> cells@[i] == Cell::Dead,
{
    let mut cells: Vec<Cell> = Vec::new();
    let mut i: usize = 0;
    while i < count
        invariant
            i <= count,
            cells@.len() == i,
            forall|k: int| 0 <= k < i ==> cells@[k] == Cell::Dead,
        decreases count - i,
    {
        cells.push(Cell::Dead);
        i = i + 1;
    }
    cells
}

/// Lays the motif out on a grid of the given dimensions. `draws` holds the
/// coin tosses for the random motif, one for each cell in row-major order;
/// tosses beyond the last cell are not read, and the other motifs read none.
pub fn lay_out(width: u32, height: u32, motif: CellMotif, draws: &[bool]) -> (laid: Result<
    Vec<Cell>,
    GridError,
>)
    ensures
        match laid {
            Ok(cells) => {
                &&& motif_error(width as nat, height as nat, motif, draws@.len() as int) is None
                &&& cells@ == motif_cells(width as int, height as int, motif, draws@)
            },
            Err(e) => motif_error(width as nat, height as nat, motif, draws@.len() as int) == Some(
                e,
            ),
        },
{
    let count = match cell_count(width, height) {
        Ok(n) => n,
        Err(e) => {
            return Err(e);
        },
    };
    match motif {
        CellMotif::Lines => {
            let mut cells: Vec<Cell> = Vec::new();
            let mut i: usize = 0;
            while i < count
                invariant
                    i <= count,
                    cells@.len() == i,
                    forall|k: int|
                        0 <= k < i ==> cells@[k] == motif_cell(
                            width as int,
                            CellMotif::Lines,
                            draws@,
                            k,
                        ),
                decreases count - i,
            {
                if i % 2 == 0 || i % 7 == 0 {
                    cells.push(Cell::Alive);
                } else {
                    cells.push(Cell::Dead);
                }
                i = i + 1;
            }
            Ok(cells)
        },
        CellMotif::Spaceship => {
            let w: usize = width as usize;
            if count <= w || count - w <= w + 1 {
                return Err(GridError::PatternTooSmall);
            }
            let mut cells = dead_cells(count);
            cells[0] = Cell::Alive;
            cells[w + 1] = Cell::Alive;
            cells[w + 2] = Cell::Alive;
            cells[2 * w] = Cell::Alive;
            cells[2 * w + 1] = Cell::Alive;
            Ok(cells)
        },
        CellMotif::Random => {
            if draws.len() < count {
                return Err(GridError::TooFewDraws);
            }
            let mut cells: Vec<Cell> = Vec::new();
            let mut i: usize = 0;
            while i < count
                invariant
                    i <= count,
                    count <= draws@.len(),
                    cells@.len() == i,
                    forall|k: int|
                        0 <= k < i ==> cells@[k] == motif_cell(
                            width as int,
                            CellMotif::Random,
                            draws@,
                            k,
                        ),
                decreases count - i,
            {
                if draws[i] {
                    cells.push(Cell::Alive);
                } else {
                    cells.push(Cell::Dead);
                }
                i = i + 1;
            }
            Ok(cells)
        },
    }
}

/// Lays the motif out on a grid of the given dimensions, tossing the coins
/// for the random motif itself. What the lines and the glider prescribe is
/// fixed; of the random motif only the number of cells is.
pub fn make_cells(width: u32, height: u32, motif: CellMotif) -> (made: Result<Vec<Cell>, GridError>)
    ensures
        match made {
            Ok(cells) => {
                &&& motif_error(width as nat, height as nat, motif, width * height) is None
                &&& cells@.len() == width * height
                &&& motif != CellMotif::Random ==> cells@ == motif_cells(
                    width as int,
                    height as int,
                    motif,
                    Seq::empty(),
                )
            },
            Err(e) => motif_error(width as nat, height as nat, motif, width * height) == Some(e),
        },
{
    let count = match cell_count(width, height) {
        Ok(n) => n,
        Err(e) => {
            return Err(e);
        },
    };
    let draws = match motif {
        CellMotif::Random => tosses(count),
        _ => Vec::new(),
    };
    match lay_out(width, height, motif, draws.as_slice()) {
        Ok(cells) => {
            assert(motif != CellMotif::Random ==> cells@ =~= motif_cells(
                width as int,
                height as int,
                motif,
                Seq::empty(),
            ));
            Ok(cells)
        },
        Err(e) => Err(e),
    }
}

} // verus!
