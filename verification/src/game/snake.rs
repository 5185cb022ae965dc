use crate::models::Direction;
use std::collections::VecDeque;
use vstd::prelude::*;

verus! {

/// One end of the snake, or a place where it turned: a cell of the board and
/// a heading.
#[derive(Copy, Clone, Debug, PartialEq, Eq, Structural, Hash, PartialOrd, Ord)]
pub struct SnakePart {
    pub position: u16,
    pub direction: Direction,
}

/// The snake: its head, its last cell, and between them the turns that the
/// last cell has still to take, oldest first.
#[derive(Debug)]
pub struct Snake {
    pub head: SnakePart,
    pub joint_queue: VecDeque<SnakePart>,
    pub last: SnakePart,
}

/// A place where the snake turned: the heading it took, and the cell.
#[derive(Copy, Clone, Debug, PartialEq, Eq, Structural, Hash, PartialOrd, Ord)]
pub struct SnakeJoint {
    pub direction: Direction,
    pub index: u16,
}

impl Default for SnakePart {
    fn default() -> (part: SnakePart)
        ensures
            part == (SnakePart { position: 0, direction: Direction::Up }),
    {
        SnakePart { position: 0, direction: Direction::Up }
    }
}

} // verus!
