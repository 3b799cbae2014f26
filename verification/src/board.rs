//! The occupancy grid: a fixed square field recording, per cell, whether it
//! is empty, holds the food item, or holds a particle of the snake's body,
//! together with uniformly random food placement on an empty cell.
use rand::RngExt;
use vstd::prelude::*;

use crate::MATRIX_SIZE;

verus! {

broadcast use vstd::seq_lib::lemma_seq_contains_after_push;

/// What a non-empty cell holds: the food item, or a particle of the
/// snake's body. An empty cell is recorded as `None`.
#[derive(Copy, Clone, Debug, PartialEq, Eq, Structural)]
pub enum Tie {
    Food,
    Particle,
}

/// The square grid. Movement wraps at its edges; the grid itself only
/// records occupancy.
pub struct Board {
    field: Vec<Vec<Option<Tie>>>,
}

/// Relies on `rand::Rng::random_range` over the half-open range `0..n`:
/// the sampled value lies inside the range, so the result is below `n`.
/// The range is non-empty by the precondition, so the call cannot panic.
#[verifier::external_body]
fn random_below(n: usize) -> (r: usize)
    requires
        n > 0,
    ensures
        r < n,
{
    let mut generator = rand::rng();
    generator.random_range(0..n)
}

impl Board {
    /// The recorded state of the cell at `(x, y)`.
    pub closed spec fn cell(self, x: int, y: int) -> Option<Tie> {
        self.field@[x]@[y]
    }

    /// The field is exactly `MATRIX_SIZE` by `MATRIX_SIZE`.
    pub closed spec fn wf(self) -> bool {
        &&& self.field@.len() == MATRIX_SIZE
        &&& forall|x: int|
            0 <= x < MATRIX_SIZE ==> (#[trigger] self.field@[x])@.len() == MATRIX_SIZE
    }

    /// Creates a board with every cell empty.
    pub fn new() -> (b: Board)
        ensures
            b.wf(),
            forall|x: int, y: int|
                0 <= x < MATRIX_SIZE && 0 <= y < MATRIX_SIZE ==> (#[trigger] b.cell(x, y)) is None,
    {
        let mut field: Vec<Vec<Option<Tie>>> = Vec::new();
        let mut x: usize = 0;
        while x < MATRIX_SIZE
            invariant
                x <= MATRIX_SIZE,
                field@.len() == x,
                forall|i: int| 0 <= i < x ==> (#[trigger] field@[i])@.len() == MATRIX_SIZE,
                forall|i: int, j: int|
                    0 <= i < x && 0 <= j < MATRIX_SIZE ==> (#[trigger] field@[i]@[j]) is None,
            decreases MATRIX_SIZE - x,
        {
            let mut row: Vec<Option<Tie>> = Vec::new();
            let mut y: usize = 0;
            while y < MATRIX_SIZE
                invariant
                    y <= MATRIX_SIZE,
                    row@.len() == y,
                    forall|j: int| 0 <= j < y ==> (#[trigger] row@[j]) is None,
                decreases MATRIX_SIZE - y,
            {
                row.push(None);
                y += 1;
            }
            field.push(row);
            x += 1;
        }
        Board { field }
    }

    /// Writes one cell. Callers guarantee in-range coordinates; there is
    /// no bounds handling beyond the fixed grid size.
    pub fn update_board(&mut self, x: u8, y: u8, tie: Option<Tie>)
        requires
            old(self).wf(),
            x < MATRIX_SIZE,
            y < MATRIX_SIZE,
        ensures
            final(self).wf(),
            final(self).cell(x as int, y as int) == tie,
            forall|i: int, j: int|
                0 <= i < MATRIX_SIZE && 0 <= j < MATRIX_SIZE && !(i == x && j == y)
                    ==> (#[trigger] final(self).cell(i, j)) == old(self).cell(i, j),
    {
        self.field[x as usize][y as usize] = tie;
    }

    /// Read-only query of one cell.
    pub fn get(&self, x: u8, y: u8) -> (r: Option<Tie>)
        requires
            self.wf(),
            x < MATRIX_SIZE,
            y < MATRIX_SIZE,
        ensures
            r == self.cell(x as int, y as int),
    {
        self.field[x as usize][y as usize]
    }

    /// Collects every empty cell and selects one uniformly at random among
    /// them; returns `None` exactly when the board is completely full. Pure
    /// query: the board is not changed.
    pub fn find_empty_spot(&self) -> (r: Option<(u8, u8)>)
        requires
            self.wf(),
        ensures
            (match r {
                Some(p) => p.0 < MATRIX_SIZE && p.1 < MATRIX_SIZE && self.cell(
                    p.0 as int,
                    p.1 as int,
                ) is None,
                None => forall|x: int, y: int|
                    0 <= x < MATRIX_SIZE && 0 <= y < MATRIX_SIZE ==> (#[trigger] self.cell(
                        x,
                        y,
                    )) is Some,
            }),
            (exists|x: int, y: int|
                0 <= x < MATRIX_SIZE && 0 <= y < MATRIX_SIZE && (#[trigger] self.cell(
                    x,
                    y,
                )) is None) ==> r is Some,
    {
        let mut v: Vec<(u8, u8)> = Vec::new();
        let mut row: usize = 0;
        while row < MATRIX_SIZE
            invariant
                self.wf(),
                row <= MATRIX_SIZE,
                forall|k: int|
                    0 <= k < v@.len() ==> (#[trigger] v@[k]).0 < MATRIX_SIZE && v@[k].1
                        < MATRIX_SIZE && self.cell(v@[k].0 as int, v@[k].1 as int) is None,
                forall|x: int, y: int|
                    0 <= x < row && 0 <= y < MATRIX_SIZE && (#[trigger] self.cell(x, y)) is None
                        ==> v@.contains(((x as u8, y as u8))),
            decreases MATRIX_SIZE - row,
        {
            let mut col: usize = 0;
            while col < MATRIX_SIZE
                invariant
                    self.wf(),
                    row < MATRIX_SIZE,
                    col <= MATRIX_SIZE,
                    forall|k: int|
                        0 <= k < v@.len() ==> (#[trigger] v@[k]).0 < MATRIX_SIZE && v@[k].1
                            < MATRIX_SIZE && self.cell(v@[k].0 as int, v@[k].1 as int) is None,
                    forall|x: int, y: int|
                        0 <= x < row && 0 <= y < MATRIX_SIZE && (#[trigger] self.cell(x, y)) is None
                            ==> v@.contains(((x as u8, y as u8))),
                    forall|y: int|
                        0 <= y < col && (#[trigger] self.cell(row as int, y)) is None
                            ==> v@.contains(((row as u8, y as u8))),
                decreases MATRIX_SIZE - col,
            {
                if self.get(row as u8, col as u8).is_none() {
                    v.push((row as u8, col as u8));
                }
                col += 1;
            }
            row += 1;
        }
        if v.len() == 0 {
            return None;
        }
        let random_spot_index = random_below(v.len());
        Some(v[random_spot_index])
    }

    /// Finds a random empty cell and marks it as food; returns the chosen
    /// cell, or `None` (leaving the board unchanged) when no empty cell
    /// exists. A `None` signals the board-full terminal condition, not an
    /// error.
    pub fn generate_food(&mut self) -> (r: Option<(u8, u8)>)
        requires
            old(self).wf(),
        ensures
            final(self).wf(),
            (match r {
                Some(p) => {
                    &&& p.0 < MATRIX_SIZE
                    &&& p.1 < MATRIX_SIZE
                    &&& old(self).cell(p.0 as int, p.1 as int) is None
                    &&& final(self).cell(p.0 as int, p.1 as int) == Some(Tie::Food)
                    &&& forall|x: int, y: int|
                        0 <= x < MATRIX_SIZE && 0 <= y < MATRIX_SIZE && !(x == p.0 && y == p.1)
                            ==> (#[trigger] final(self).cell(x, y)) == old(self).cell(x, y)
                },
                None => {
                    &&& *final(self) == *old(self)
                    &&& forall|x: int, y: int|
                        0 <= x < MATRIX_SIZE && 0 <= y < MATRIX_SIZE ==> (#[trigger] old(self).cell(
                            x,
                            y,
                        )) is Some
                },
            }),
            (exists|x: int, y: int|
                0 <= x < MATRIX_SIZE && 0 <= y < MATRIX_SIZE && (#[trigger] old(self).cell(
                    x,
                    y,
                )) is None) ==> r is Some,
    {
        let result = match self.find_empty_spot() {
            Some((row, col)) => {
                self.update_board(row, col, Some(Tie::Food));
                Some((row, col))
            },
            None => None,
        };
        result
    }
}

} // verus!
