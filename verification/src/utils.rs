use vstd::prelude::*;

use crate::entity::Entity;

verus! {

/// Fixed dimensions of a room: the grid covers `[0, width) x [0, height)`.
#[derive(Debug, Clone, Copy, PartialEq, Eq, Structural)]
pub struct Size {
    pub width: usize,
    pub height: usize,
}

/// A cell coordinate: `x` is the column, `y` is the row.
#[derive(Debug, Clone, Copy, PartialEq, Eq, Structural)]
pub struct Position {
    pub x: usize,
    pub y: usize,
}

/// The four axis directions a movement can take. `Up` increases the row,
/// `Down` decreases it, `Right` increases the column, `Left` decreases it.
#[derive(Debug, Clone, Copy, PartialEq, Eq, Structural)]
pub enum Direction {
    Up,
    Down,
    Left,
    Right,
}

/// A single-axis displacement request: walk `distance` tiles towards
/// `direction`, one tile at a time.
#[derive(Debug, Clone, Copy, PartialEq, Eq, Structural)]
pub struct Movement {
    pub distance: usize,
    pub direction: Direction,
}

/// The outcome of a resolved movement. `Success`: the target tile was
/// reached. `Failure`: the path left the grid after at least one valid
/// step, and the entity rests on the last valid tile. `Collision`: the
/// path hit an occupied tile; the carried entities are the mover followed
/// by the occupant, and the mover rests one tile before the occupant.
#[derive(Debug, Clone, PartialEq, Eq)]
pub enum MoveResult {
    Success,
    Failure,
    Collision(Vec<Entity>),
}

/// Whether the integer point (x, y) lies inside the given bounds.
pub open spec fn in_bounds(size: Size, x: int, y: int) -> bool {
    0 <= x < size.width && 0 <= y < size.height
}

/// Column of the tile `k` steps away from `start` in `direction`.
pub open spec fn step_x(start: Position, direction: Direction, k: int) -> int {
    match direction {
        Direction::Left => start.x - k,
        Direction::Right => start.x + k,
        Direction::Up => start.x as int,
        Direction::Down => start.x as int,
    }
}

/// Row of the tile `k` steps away from `start` in `direction`.
pub open spec fn step_y(start: Position, direction: Direction, k: int) -> int {
    match direction {
        Direction::Up => start.y + k,
        Direction::Down => start.y - k,
        Direction::Left => start.y as int,
        Direction::Right => start.y as int,
    }
}

/// The tile `k` steps away from `start` in `direction`, or `None` when
/// that tile lies outside the bounds (including a coordinate that would
/// fall below zero).
pub(crate) fn step_tile(size: Size, start: Position, direction: Direction, k: usize) -> (t: Option<
    Position,
>)
    requires
        in_bounds(size, start.x as int, start.y as int),
    ensures
        t is Some <==> in_bounds(
            size,
            step_x(start, direction, k as int),
            step_y(start, direction, k as int),
        ),
        t is Some ==> t->0.x == step_x(start, direction, k as int) && t->0.y == step_y(
            start,
            direction,
            k as int,
        ),
{
    match direction {
        Direction::Up => {
            if k <= size.height - 1 - start.y {
                Some(Position { x: start.x, y: start.y + k })
            } else {
                None
            }
        },
        Direction::Down => {
            if k <= start.y {
                Some(Position { x: start.x, y: start.y - k })
            } else {
                None
            }
        },
        Direction::Left => {
            if k <= start.x {
                Some(Position { x: start.x - k, y: start.y })
            } else {
                None
            }
        },
        Direction::Right => {
            if k <= size.width - 1 - start.x {
                Some(Position { x: start.x + k, y: start.y })
            } else {
                None
            }
        },
    }
}

} // verus!
