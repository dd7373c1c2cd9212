use vstd::prelude::*;

verus! {

/// A compass direction on a grid.
#[derive(PartialEq, Eq, Structural, Debug, Clone, Copy)]
pub enum Direction {
    Up,
    Down,
    Left,
    Right,
}

/// The direction a quarter turn clockwise from `d`.
pub open spec fn right_of(d: Direction) -> Direction {
    match d {
        Direction::Up => Direction::Right,
        Direction::Right => Direction::Down,
        Direction::Down => Direction::Left,
        Direction::Left => Direction::Up,
    }
}

/// The direction a quarter turn counterclockwise from `d`.
pub open spec fn left_of(d: Direction) -> Direction {
    match d {
        Direction::Up => Direction::Left,
        Direction::Left => Direction::Down,
        Direction::Down => Direction::Right,
        Direction::Right => Direction::Up,
    }
}

/// The opposite direction.
pub open spec fn opposite_of(d: Direction) -> Direction {
    right_of(right_of(d))
}

/// The unit step of a direction, with `y` growing upward.
pub open spec fn offset_of(d: Direction) -> (i32, i32) {
    match d {
        Direction::Up => (0i32, 1i32),
        Direction::Down => (0i32, -1i32),
        Direction::Left => (-1i32, 0i32),
        Direction::Right => (1i32, 0i32),
    }
}

impl Direction {
    pub fn turn_right(&self) -> (r: Direction)
        ensures
            r == right_of(*self),
    {
        match *self {
            Direction::Up => Direction::Right,
            Direction::Down => Direction::Left,
            Direction::Left => Direction::Up,
            Direction::Right => Direction::Down,
        }
    }

    pub fn turn_left(&self) -> (r: Direction)
        ensures
            r == left_of(*self),
            right_of(r) == *self,
    {
        match *self {
            Direction::Up => Direction::Left,
            Direction::Down => Direction::Right,
            Direction::Left => Direction::Down,
            Direction::Right => Direction::Up,
        }
    }

    pub fn reverse(&self) -> (r: Direction)
        ensures
            r == opposite_of(*self),
            r != *self,
    {
        match *self {
            Direction::Up => Direction::Down,
            Direction::Down => Direction::Up,
            Direction::Left => Direction::Right,
            Direction::Right => Direction::Left,
        }
    }

    pub fn step_offset(&self) -> (r: (i32, i32))
        ensures
            r == offset_of(*self),
    {
        match *self {
            Direction::Up => (0, 1),
            Direction::Down => (0, -1),
            Direction::Left => (-1, 0),
            Direction::Right => (1, 0),
        }
    }

    /// The letter of the direction: `U`, `D`, `L` or `R`.
    pub fn letter(&self) -> (r: char)
        ensures
            r == match *self {
                Direction::Up => 'U',
                Direction::Down => 'D',
                Direction::Left => 'L',
                Direction::Right => 'R',
            },
    {
        match *self {
            Direction::Up => 'U',
            Direction::Down => 'D',
            Direction::Left => 'L',
            Direction::Right => 'R',
        }
    }
}

} // verus!
