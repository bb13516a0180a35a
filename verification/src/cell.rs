use vstd::prelude::*;

verus! {

/// The state of one grid cell. There are exactly two states.
#[derive(Clone, Copy, PartialEq, Eq, Structural, Debug)]
pub enum Cell {
    Dead,
    Alive,
}

impl Cell {
    /// The opposite state.
    pub open spec fn spec_flipped(self) -> Cell {
        match self {
            Cell::Dead => Cell::Alive,
            Cell::Alive => Cell::Dead,
        }
    }

    /// Returns the opposite state.
    pub fn flipped(self) -> (r: Cell)
        ensures
            r == self.spec_flipped(),
    {
        match self {
            Cell::Dead => Cell::Alive,
            Cell::Alive => Cell::Dead,
        }
    }
}

/// How much life a cell contributes to a neighbor count: one if alive, zero if dead.
pub open spec fn life(c: Cell) -> nat {
    match c {
        Cell::Dead => 0,
        Cell::Alive => 1,
    }
}

/// Returns one for an alive cell and zero for a dead one.
pub fn life_count(c: Cell) -> (n: u32)
    ensures
        n as nat == life(c),
{
    match c {
        Cell::Dead => 0,
        Cell::Alive => 1,
    }
}

/// The standard rule, first match wins: fewer than two live neighbors starves the
/// cell; an alive cell with two, or any cell with exactly three, is alive next;
/// more than three overcrowds it; a dead cell with two neighbors stays dead.
pub open spec fn next_state(c: Cell, live_neighbors: nat) -> Cell {
    if live_neighbors < 2 {
        Cell::Dead
    } else if (c is Alive && live_neighbors == 2) || live_neighbors == 3 {
        Cell::Alive
    } else if live_neighbors > 3 {
        Cell::Dead
    } else {
        c
    }
}

/// The deterministic seed pattern: cell `i` starts alive exactly when `i` is
/// even or a multiple of seven.
pub open spec fn seed_cell(i: int) -> Cell {
    if i % 2 == 0 || i % 7 == 0 {
        Cell::Alive
    } else {
        Cell::Dead
    }
}

} // verus!
