//! Grid geometry and heading arbitration: points on the toroidal grid,
//! the four travel directions, the wrapping single-step function, and the
//! rule that rejects direct reversals of the current heading.
use vstd::prelude::*;

use crate::MATRIX_SIZE;

verus! {

/// A cell coordinate; both components lie in `[0, MATRIX_SIZE)` for
/// well-formed points.
#[derive(Copy, Clone, Debug, PartialEq, Eq, Structural)]
pub struct Point {
    pub x: u8,
    pub y: u8,
}

/// A travel heading. `Up` decreases `y`, `Down` increases `y`,
/// `Left` decreases `x`, `Right` increases `x`.
#[derive(Copy, Clone, Debug, PartialEq, Eq, Structural)]
pub enum Direction {
    Up,
    Down,
    Left,
    Right,
}

/// Whether both components of `p` lie on the grid.
pub open spec fn in_range(p: Point) -> bool {
    p.x < MATRIX_SIZE && p.y < MATRIX_SIZE
}

/// One unit down with wrap-around: 0 wraps to the far edge.
pub open spec fn wrap_dec(v: u8) -> u8 {
    if v == 0 {
        (MATRIX_SIZE - 1) as u8
    } else {
        (v - 1) as u8
    }
}

/// One unit up with wrap-around: the far edge wraps to 0.
pub open spec fn wrap_inc(v: u8) -> u8 {
    if v == MATRIX_SIZE - 1 {
        0
    } else {
        (v + 1) as u8
    }
}

/// The cell one step from `p` in direction `d`, wrapping at the edges
/// (toroidal topology: leaving one edge re-enters at the opposite edge).
pub open spec fn next_point(p: Point, d: Direction) -> Point {
    match d {
        Direction::Up => Point { x: p.x, y: wrap_dec(p.y) },
        Direction::Down => Point { x: p.x, y: wrap_inc(p.y) },
        Direction::Left => Point { x: wrap_dec(p.x), y: p.y },
        Direction::Right => Point { x: wrap_inc(p.x), y: p.y },
    }
}

/// Computes the cell one step from `p` in direction `d`, wrapping around
/// the grid edges.
pub fn step(p: Point, d: Direction) -> (r: Point)
    requires
        in_range(p),
    ensures
        r == next_point(p, d),
        in_range(r),
{
    match d {
        Direction::Up => Point {
            x: p.x,
            y: if p.y == 0 { (MATRIX_SIZE - 1) as u8 } else { p.y - 1 },
        },
        Direction::Down => Point {
            x: p.x,
            y: if p.y as usize == MATRIX_SIZE - 1 { 0 } else { p.y + 1 },
        },
        Direction::Left => Point {
            x: if p.x == 0 { (MATRIX_SIZE - 1) as u8 } else { p.x - 1 },
            y: p.y,
        },
        Direction::Right => Point {
            x: if p.x as usize == MATRIX_SIZE - 1 { 0 } else { p.x + 1 },
            y: p.y,
        },
    }
}

/// Whether `d` is a horizontal heading.
pub open spec fn horizontal(d: Direction) -> bool {
    d == Direction::Left || d == Direction::Right
}

/// Whether a requested turn is accepted: only turns orthogonal to the
/// current heading are; requesting the same heading or its direct
/// reversal leaves the heading as it was.
pub open spec fn turn_allowed(current: Direction, requested: Direction) -> bool {
    horizontal(current) != horizontal(requested)
}

/// Direction-change arbitration: returns `requested` when it is orthogonal
/// to `current`, and `current` otherwise, so a direct reversal is silently
/// ignored and the snake cannot collide with its own neck on the next tick.
pub fn request_turn(current: Direction, requested: Direction) -> (r: Direction)
    ensures
        r == (if turn_allowed(current, requested) {
            requested
        } else {
            current
        }),
{
    match current {
        Direction::Up | Direction::Down => match requested {
            Direction::Left | Direction::Right => requested,
            _ => current,
        },
        Direction::Left | Direction::Right => match requested {
            Direction::Up | Direction::Down => requested,
            _ => current,
        },
    }
}

} // verus!
