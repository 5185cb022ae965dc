use super::grid_layout::GridShape;
use super::grid_node::{draw_cells, grid_painted, grid_reacts, signal_cells, CellMaker};
use super::Node;
use crate::canvas::{Canvas, DrawOp};
use crate::context::Context;
use crate::models::{Box2D, Event, Signal};
use vstd::prelude::*;

verus! {

/// The gap between the cells of a grid that names none.
pub const DEFAULT_GAP_SIZE: i32 = 4;

/// A grid that may leave its gaps and its size open, and sits in the middle
/// of the room it is offered. An open gap is `DEFAULT_GAP_SIZE`; an open
/// size is all of the room.
#[derive(Debug)]
pub struct Grid<K> {
    dim: (usize, usize),
    gap: Option<(Option<i32>, Option<i32>)>,
    size: Option<(Option<i32>, Option<i32>)>,
    maker: K,
}

/// The first of a pair that may be open, on two levels.
pub open spec fn first_of(pair: Option<(Option<i32>, Option<i32>)>, open_value: i32) -> i32 {
    match pair {
        Some((Some(value), _)) => value,
        _ => open_value,
    }
}

/// The second of a pair that may be open, on two levels.
pub open spec fn second_of(pair: Option<(Option<i32>, Option<i32>)>, open_value: i32) -> i32 {
    match pair {
        Some((_, Some(value))) => value,
        _ => open_value,
    }
}

/// Whether both of a pair, as far as they are given, are positive.
pub open spec fn given_are_positive(pair: Option<(Option<i32>, Option<i32>)>) -> bool {
    first_of(pair, 1) > 0 && second_of(pair, 1) > 0
}

/// Whether a grid may have `dim` columns and rows, the gaps `gap` and the
/// size `size`: there is a cell, the number of cells fits the machine, and
/// the gaps and sizes that are given are positive.
pub open spec fn open_grid_is_valid(
    dim: (usize, usize),
    gap: Option<(Option<i32>, Option<i32>)>,
    size: Option<(Option<i32>, Option<i32>)>,
) -> bool {
    &&& dim.0 > 0
    &&& dim.1 > 0
    &&& dim.0 * dim.1 <= usize::MAX
    &&& given_are_positive(gap)
    &&& given_are_positive(size)
}

/// The first of a pair that may be open, on two levels.
fn first_or(pair: Option<(Option<i32>, Option<i32>)>, open_value: i32) -> (value: i32)
    ensures
        value == first_of(pair, open_value),
{
    match pair {
        Some((Some(value), _)) => value,
        _ => open_value,
    }
}

/// The second of a pair that may be open, on two levels.
fn second_or(pair: Option<(Option<i32>, Option<i32>)>, open_value: i32) -> (value: i32)
    ensures
        value == second_of(pair, open_value),
{
    match pair {
        Some((_, Some(value))) => value,
        _ => open_value,
    }
}

impl<K> Grid<K> {
    #[verifier::type_invariant]
    spec fn inv(self) -> bool {
        open_grid_is_valid(self.dim, self.gap, self.size)
    }

    /// Columns and rows.
    pub closed spec fn dim_of(self) -> (usize, usize) {
        self.dim
    }

    /// The gaps, as far as they are given.
    pub closed spec fn gap_of(self) -> Option<(Option<i32>, Option<i32>)> {
        self.gap
    }

    /// The size, as far as it is given.
    pub closed spec fn size_of(self) -> Option<(Option<i32>, Option<i32>)> {
        self.size
    }

    /// What fills the cells.
    pub closed spec fn maker_of(self) -> K {
        self.maker
    }

    /// The shape of this grid in the room `constraint`.
    pub open spec fn shape_in(self, constraint: Box2D) -> GridShape {
        GridShape {
            dim: self.dim_of(),
            gap: (
                first_of(self.gap_of(), DEFAULT_GAP_SIZE),
                second_of(self.gap_of(), DEFAULT_GAP_SIZE),
            ),
            size: (
                first_of(self.size_of(), constraint.size.0),
                second_of(self.size_of(), constraint.size.1),
            ),
            at_bottom: false,
        }
    }

    /// A grid of `dim` columns and rows, filled by `maker`, with the gaps
    /// and the size that are given.
    pub fn new(
        dim: (usize, usize),
        gap: Option<(Option<i32>, Option<i32>)>,
        size: Option<(Option<i32>, Option<i32>)>,
        maker: K,
    ) -> (grid: Self)
        requires
            open_grid_is_valid(dim, gap, size),
        ensures
            grid.dim_of() == dim,
            grid.gap_of() == gap,
            grid.size_of() == size,
            grid.maker_of() == maker,
    {
        Grid { dim, gap, size, maker }
    }

    /// The grid of `new`, or `None` where there is no cell, the cells are too
    /// many, or a gap or a size that is given is not positive.
    pub fn try_new(
        dim: (usize, usize),
        gap: Option<(Option<i32>, Option<i32>)>,
        size: Option<(Option<i32>, Option<i32>)>,
        maker: K,
    ) -> (grid: Option<Self>)
        ensures
            grid is Some == open_grid_is_valid(dim, gap, size),
            grid matches Some(made) ==> made.dim_of() == dim && made.gap_of() == gap
                && made.size_of() == size && made.maker_of() == maker,
    {
        if dim.0 == 0 || dim.1 == 0 || dim.0.checked_mul(dim.1).is_none() {
            return None;
        }
        if first_or(gap, 1) <= 0 || second_or(gap, 1) <= 0 || first_or(size, 1) <= 0 || second_or(
            size,
            1,
        ) <= 0 {
            return None;
        }
        Some(Grid { dim, gap, size, maker })
    }

    /// The shape of this grid in the room `constraint`.
    pub fn shape(&self, constraint: Box2D) -> (shape: GridShape)
        ensures
            shape == self.shape_in(constraint),
            shape.valid(),
    {
        proof {
            use_type_invariant(self);
        }
        GridShape {
            dim: self.dim,
            gap: (first_or(self.gap, DEFAULT_GAP_SIZE), second_or(self.gap, DEFAULT_GAP_SIZE)),
            size: (first_or(self.size, constraint.size.0), second_or(self.size, constraint.size.1)),
            at_bottom: false,
        }
    }

    /// What fills the cells.
    pub fn maker(&self) -> (maker: &K)
        ensures
            *maker == self.maker_of(),
    {
        &self.maker
    }
}

impl<K: CellMaker> Node for Grid<K> {
    /// The grid stays as it is; its cells react one after the other.
    open spec fn reacts(
        self,
        context: Context,
        signal: Signal,
        after: Self,
        context_after: Context,
    ) -> bool {
        after == self && grid_reacts(
            self.maker_of(),
            self.dim_of(),
            context,
            signal,
            context_after,
        )
    }

    /// The cells are drawn one after the other, each in its room.
    open spec fn paints(
        self,
        constraint: Box2D,
        canvas: Seq<DrawOp>,
        canvas_after: Seq<DrawOp>,
    ) -> bool {
        grid_painted(self.maker_of(), self.shape_in(constraint), constraint, canvas, canvas_after)
    }

    /// A grid would like the size it was given, and all the room there is
    /// where that is left open.
    open spec fn sizes(self, size: (i32, i32)) -> bool {
        size == (first_of(self.size_of(), i32::MAX), second_of(self.size_of(), i32::MAX))
    }

    fn on_event(&mut self, context: &mut Context, event: &Event) {
        proof {
            use_type_invariant(&*self);
        }
        signal_cells(&self.maker, self.dim, context, Signal::Event(*event));
    }

    fn tick(&mut self, context: &mut Context, dt: u64) {
        proof {
            use_type_invariant(&*self);
        }
        signal_cells(&self.maker, self.dim, context, Signal::Tick(dt));
    }

    fn get_size(&self) -> (size: (i32, i32)) {
        (first_or(self.size, i32::MAX), second_or(self.size, i32::MAX))
    }

    fn draw(&self, canvas: &mut Canvas, constraint: Box2D) {
        let shape = self.shape(constraint);
        draw_cells(&self.maker, &shape, canvas, constraint);
    }
}

} // verus!
