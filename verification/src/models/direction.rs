use vstd::prelude::*;

verus! {

/// One of the four headings on a grid.
#[derive(Copy, Clone, Debug, PartialEq, Eq, Structural, Hash, PartialOrd, Ord)]
pub enum Direction {
    Up,
    Right,
    Down,
    Left,
}

impl Direction {
    /// The heading that points the other way.
    pub open spec fn reversed(self) -> Direction {
        match self {
            Direction::Up => Direction::Down,
            Direction::Right => Direction::Left,
            Direction::Down => Direction::Up,
            Direction::Left => Direction::Right,
        }
    }

    /// The heading that points the other way.
    pub fn opposite(self) -> (d: Direction)
        ensures
            d == self.reversed(),
    {
        match self {
            Direction::Up => Direction::Down,
            Direction::Right => Direction::Left,
            Direction::Down => Direction::Up,
            Direction::Left => Direction::Right,
        }
    }

    /// The heading with the given number, counting clockwise from `Up`;
    /// there are four.
    pub open spec fn nth(n: int) -> Option<Direction> {
        if n == 0 {
            Some(Direction::Up)
        } else if n == 1 {
            Some(Direction::Right)
        } else if n == 2 {
            Some(Direction::Down)
        } else if n == 3 {
            Some(Direction::Left)
        } else {
            None
        }
    }

    /// The heading with the given number, counting clockwise from `Up`, or
    /// `None` from four on.
    pub fn from_index(n: usize) -> (d: Option<Direction>)
        ensures
            d == Direction::nth(n as int),
    {
        if n == 0 {
            Some(Direction::Up)
        } else if n == 1 {
            Some(Direction::Right)
        } else if n == 2 {
            Some(Direction::Down)
        } else if n == 3 {
            Some(Direction::Left)
        } else {
            None
        }
    }
}

impl Default for Direction {
    fn default() -> (d: Direction)
        ensures
            d == Direction::Up,
    {
        Direction::Up
    }
}

/// Reversing a heading twice gives it back, and no heading is its own
/// reverse.
pub proof fn lemma_reversed_is_an_involution(d: Direction)
    ensures
        d.reversed().reversed() == d,
        d.reversed() != d,
{
}

} // verus!
