//! One cell of the grid and the rule by which it lives or dies.

use vstd::prelude::*;

verus! {

/// The state of one position of the grid.
#[derive(Clone, Copy, Debug, PartialEq, Eq, Structural)]
pub enum Cell {
    Dead,
    Alive,
}

impl Cell {
    /// What the cell adds to a count of live cells: 1 if alive, 0 if dead.
    pub open spec fn weight(self) -> int {
        if self is Alive {
            1
        } else {
            0
        }
    }

    /// The other state.
    pub open spec fn flipped(self) -> Cell {
        match self {
            Cell::Dead => Cell::Alive,
            Cell::Alive => Cell::Dead,
        }
    }

    /// The transition rule: the state of a cell in the next generation, given
    /// how many of its eight neighbours are alive now.
    ///
    /// | now   | live neighbours | next  |
    /// |-------|-----------------|-------|
    /// | Alive | fewer than 2    | Dead  |
    /// | Alive | 2 or 3          | Alive |
    /// | Alive | more than 3     | Dead  |
    /// | Dead  | exactly 3       | Alive |
    /// | Dead  | any other       | Dead  |
    pub open spec fn successor(self, live_neighbors: int) -> Cell {
        match self {
            Cell::Alive => if live_neighbors < 2 {
                Cell::Dead
            } else if live_neighbors <= 3 {
                Cell::Alive
            } else {
                Cell::Dead
            },
            Cell::Dead => if live_neighbors == 3 {
                Cell::Alive
            } else {
                Cell::Dead
            },
        }
    }

    /// The character that stands for the cell in rendered text.
    pub open spec fn glyph_of(self) -> char {
        match self {
            Cell::Dead => '\u{25FB}',
            Cell::Alive => '\u{25FC}',
        }
    }

    /// Flips the cell in place.
    pub fn toggle(&mut self)
        ensures
            *final(self) == old(self).flipped(),
    {
        *self = match *self {
            Cell::Dead => Cell::Alive,
            Cell::Alive => Cell::Dead,
        };
    }

    /// Whether the cell is alive.
    pub fn is_alive(self) -> (alive: bool)
        ensures
            alive == (self is Alive),
            alive == (self.weight() == 1),
    {
        match self {
            Cell::Dead => false,
            Cell::Alive => true,
        }
    }

    /// What the cell adds to a count of live cells.
    pub fn to_u8(self) -> (weight: u8)
        ensures
            weight == self.weight(),
    {
        match self {
            Cell::Dead => 0,
            Cell::Alive => 1,
        }
    }

    /// Applies the transition rule.
    pub fn next_state(self, live_neighbors: u8) -> (next: Cell)
        ensures
            next == self.successor(live_neighbors as int),
    {
        match self {
            Cell::Alive => {
                if live_neighbors == 2 || live_neighbors == 3 {
                    Cell::Alive
                } else {
                    Cell::Dead
                }
            },
            Cell::Dead => {
                if live_neighbors == 3 {
                    Cell::Alive
                } else {
                    Cell::Dead
                }
            },
        }
    }

    /// The character that stands for the cell in rendered text: a hollow
    /// square for a dead cell, a filled one for a live cell.
    pub fn glyph(self) -> (c: char)
        ensures
            c == self.glyph_of(),
    {
        match self {
            Cell::Dead => '\u{25FB}',
            Cell::Alive => '\u{25FC}',
        }
    }
}

/// The rule table, row by row: a live cell with fewer than two live
/// neighbours dies, one with two or three stays alive, one with more than
/// three dies; a dead cell comes alive with exactly three live neighbours and
/// stays dead with any other number.
pub proof fn lemma_rule_table(live_neighbors: int)
    ensures
        live_neighbors < 2 ==> Cell::Alive.successor(live_neighbors) == Cell::Dead,
        live_neighbors == 2 || live_neighbors == 3 ==> Cell::Alive.successor(live_neighbors)
            == Cell::Alive,
        live_neighbors > 3 ==> Cell::Alive.successor(live_neighbors) == Cell::Dead,
        live_neighbors == 3 ==> Cell::Dead.successor(live_neighbors) == Cell::Alive,
        live_neighbors != 3 ==> Cell::Dead.successor(live_neighbors) == Cell::Dead,
{
}

/// Toggling is an involution on a single cell.
pub proof fn lemma_flip_twice(cell: Cell)
    ensures
        cell.flipped().flipped() == cell,
        cell.flipped() != cell,
{
}

} // verus!
