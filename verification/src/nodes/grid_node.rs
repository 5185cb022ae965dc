use super::box_node::BoxNode;
use super::grid_layout::GridShape;
use super::Node;
use crate::canvas::{Canvas, DrawOp};
use crate::context::Context;
use crate::engine::stage;
use crate::models::{Box2D, Event, Signal};
use vstd::prelude::*;

verus! {

/// What fills the cells of a grid: for each cell number, a leaf.
///
/// The `spec` function says what `cell_at` may return. Left as it is, it
/// allows anything; a maker that overrides it is held to what it says.
pub trait CellMaker: Sized {
    /// The leaves this maker makes.
    type Cell: Node;

    /// Whether `cell` may be the leaf for the cell with number `index`.
    open spec fn makes_cell(self, index: usize, cell: Self::Cell) -> bool {
        true
    }

    /// The leaf for the cell with number `index`.
    fn cell_at(&self, index: usize) -> (cell: Self::Cell)
        ensures
            self.makes_cell(index, cell),
    ;
}

/// A maker whose every cell is a box of no colour.
#[derive(Copy, Clone, Debug, PartialEq, Eq, Structural)]
pub struct PlainCells {}

impl CellMaker for PlainCells {
    type Cell = BoxNode;

    open spec fn makes_cell(self, index: usize, cell: BoxNode) -> bool {
        cell.color.argb == 0
    }

    fn cell_at(&self, index: usize) -> (cell: BoxNode) {
        BoxNode::default()
    }
}

/// Whether handing `signal` to the first `upto` cells of `maker`, in the
/// order of their numbers, may turn `context` into `context_after`.
pub open spec fn cells_react<K: CellMaker>(
    maker: K,
    upto: nat,
    context: Context,
    signal: Signal,
    context_after: Context,
) -> bool
    decreases upto,
{
    if upto == 0 {
        context_after == context
    } else {
        exists|context_mid: Context, cell: K::Cell, cell_after: K::Cell|
            {
                &&& #[trigger] stage((context_mid, cell, cell_after))
                &&& cells_react(maker, (upto - 1) as nat, context, signal, context_mid)
                &&& maker.makes_cell((upto - 1) as usize, cell)
                &&& cell.reacts(context_mid, signal, cell_after, context_after)
            }
    }
}

/// Whether drawing cell `index` of a grid of shape `shape` in the room
/// `constraint` may turn the orders `canvas` into `canvas_after`: the cell's
/// leaf paints into the cell's room, and a cell that does not fit is left
/// out.
pub open spec fn cell_painted<K: CellMaker>(
    maker: K,
    shape: GridShape,
    constraint: Box2D,
    index: usize,
    canvas: Seq<DrawOp>,
    canvas_after: Seq<DrawOp>,
) -> bool {
    match shape.cell(constraint, index as int) {
        Some(room) => exists|cell: K::Cell|
            {
                &&& #[trigger] stage(cell)
                &&& maker.makes_cell(index, cell)
                &&& cell.paints(room, canvas, canvas_after)
            },
        None => canvas_after == canvas,
    }
}

/// Whether drawing the first `upto` cells of a grid, in the order of their
/// numbers, may turn the orders `canvas` into `canvas_after`.
pub open spec fn cells_painted<K: CellMaker>(
    maker: K,
    shape: GridShape,
    constraint: Box2D,
    upto: nat,
    canvas: Seq<DrawOp>,
    canvas_after: Seq<DrawOp>,
) -> bool
    decreases upto,
{
    if upto == 0 {
        canvas_after == canvas
    } else {
        exists|canvas_mid: Seq<DrawOp>|
            {
                &&& #[trigger] stage(canvas_mid)
                &&& cells_painted(maker, shape, constraint, (upto - 1) as nat, canvas, canvas_mid)
                &&& cell_painted(
                    maker,
                    shape,
                    constraint,
                    (upto - 1) as usize,
                    canvas_mid,
                    canvas_after,
                )
            }
    }
}

/// Whether `signal` may turn `context` into `context_after` on its way
/// through a grid with `dim` columns and rows: every cell reacts, in the
/// order of the numbers.
pub open spec fn grid_reacts<K: CellMaker>(
    maker: K,
    dim: (usize, usize),
    context: Context,
    signal: Signal,
    context_after: Context,
) -> bool {
    cells_react(maker, (dim.0 * dim.1) as nat, context, signal, context_after)
}

/// Whether drawing a grid of shape `shape` in the room `constraint` may turn
/// the orders `canvas` into `canvas_after`: every cell is drawn, in the
/// order of the numbers.
pub open spec fn grid_painted<K: CellMaker>(
    maker: K,
    shape: GridShape,
    constraint: Box2D,
    canvas: Seq<DrawOp>,
    canvas_after: Seq<DrawOp>,
) -> bool {
    cells_painted(maker, shape, constraint, shape.cells(), canvas, canvas_after)
}

/// Hands `signal` to every cell of a grid, in the order of the numbers.
pub fn signal_cells<K: CellMaker>(
    maker: &K,
    dim: (usize, usize),
    context: &mut Context,
    signal: Signal,
)
    requires
        dim.0 * dim.1 <= usize::MAX,
    ensures
        grid_reacts(*maker, dim, *old(context), signal, *final(context)),
{
    let count = dim.0 * dim.1;
    let mut i: usize = 0;
    while i < count
        invariant
            i <= count,
            cells_react(*maker, i as nat, *old(context), signal, *context),
        decreases count - i,
    {
        let ghost context_mid = *context;
        let mut cell = maker.cell_at(i);
        let ghost made = cell;
        match signal {
            Signal::Event(event) => cell.on_event(context, &event),
            Signal::Tick(dt) => cell.tick(context, dt),
        }
        i += 1;
        assert(stage((context_mid, made, cell)));
    }
}

/// Draws every cell of a grid, in the order of the numbers.
pub fn draw_cells<K: CellMaker>(
    maker: &K,
    shape: &GridShape,
    canvas: &mut Canvas,
    constraint: Box2D,
)
    requires
        shape.valid(),
    ensures
        grid_painted(*maker, *shape, constraint, old(canvas)@, final(canvas)@),
{
    let count = shape.cell_count();
    let mut i: usize = 0;
    while i < count
        invariant
            i <= count,
            shape.valid(),
            cells_painted(*maker, *shape, constraint, i as nat, old(canvas)@, canvas@),
        decreases count - i,
    {
        let ghost canvas_mid = canvas@;
        match shape.cell_box(constraint, i) {
            Some(room) => {
                let cell = maker.cell_at(i);
                cell.draw(canvas, room);
                assert(stage(cell));
            },
            None => {},
        }
        i += 1;
        assert(stage(canvas_mid));
    }
}

/// Whether a grid may have `dim` columns and rows, the gaps `gap` and the
/// size `size`: there is a cell, the number of cells fits the machine, and
/// gaps and sizes are positive.
pub open spec fn grid_is_valid(dim: (usize, usize), gap: (i32, i32), size: (i32, i32)) -> bool {
    &&& dim.0 > 0
    &&& dim.1 > 0
    &&& dim.0 * dim.1 <= usize::MAX
    &&& gap.0 > 0
    &&& gap.1 > 0
    &&& size.0 > 0
    &&& size.1 > 0
}

/// A leaf that lays out equal cells in rows and columns, with a gap between
/// neighbours, and draws one leaf of its maker into each. It sits at the
/// bottom of the room it is offered, in the middle across.
#[derive(Debug)]
pub struct GridNode<K> {
    dim: (usize, usize),
    gap: (i32, i32),
    size: (i32, i32),
    maker: K,
}

impl<K> GridNode<K> {
    #[verifier::type_invariant]
    spec fn inv(self) -> bool {
        grid_is_valid(self.dim, self.gap, self.size)
    }

    /// The shape of this grid: columns and rows, the gaps between them, and
    /// the room the grid wants.
    pub closed spec fn shape_of(self) -> GridShape {
        GridShape { dim: self.dim, gap: self.gap, size: self.size, at_bottom: true }
    }

    /// What fills the cells.
    pub closed spec fn maker_of(self) -> K {
        self.maker
    }

    /// A grid of `dim` columns and rows with the gaps `gap`, which wants the
    /// room `size` and takes less where less is offered, filled by `maker`.
    pub fn new(dim: (usize, usize), gap: (i32, i32), size: (i32, i32), maker: K) -> (grid: Self)
        requires
            grid_is_valid(dim, gap, size),
        ensures
            grid.shape_of() == (GridShape { dim, gap, size, at_bottom: true }),
            grid.maker_of() == maker,
    {
        GridNode { dim, gap, size, maker }
    }

    /// The grid of `new`, or `None` where there is no cell, the cells are too
    /// many, or a gap or a size is not positive.
    pub fn try_new(dim: (usize, usize), gap: (i32, i32), size: (i32, i32), maker: K) -> (grid:
        Option<Self>)
        ensures
            grid is Some == grid_is_valid(dim, gap, size),
            grid matches Some(made) ==> made.shape_of() == (GridShape {
                dim,
                gap,
                size,
                at_bottom: true,
            }) && made.maker_of() == maker,
    {
        let shape = GridShape { dim, gap, size, at_bottom: true };
        if shape.is_valid() && size.0 > 0 && size.1 > 0 {
            Some(GridNode { dim, gap, size, maker })
        } else {
            None
        }
    }

    /// The shape of this grid.
    pub fn shape(&self) -> (shape: GridShape)
        ensures
            shape == self.shape_of(),
            grid_is_valid(shape.dim, shape.gap, shape.size),
    {
        proof {
            use_type_invariant(self);
        }
        GridShape { dim: self.dim, gap: self.gap, size: self.size, at_bottom: true }
    }

    /// What fills the cells.
    pub fn maker(&self) -> (maker: &K)
        ensures
            *maker == self.maker_of(),
    {
        &self.maker
    }
}

impl Default for GridNode<PlainCells> {
    fn default() -> (grid: Self)
        ensures
            grid.shape_of() == (GridShape {
                dim: (4, 4),
                gap: (4, 4),
                size: (i32::MAX, i32::MAX),
                at_bottom: true,
            }),
    {
        GridNode { dim: (4, 4), gap: (4, 4), size: (i32::MAX, i32::MAX), maker: PlainCells {  } }
    }
}

impl<K: CellMaker> Node for GridNode<K> {
    /// The grid stays as it is; its cells react one after the other.
    open spec fn reacts(
        self,
        context: Context,
        signal: Signal,
        after: Self,
        context_after: Context,
    ) -> bool {
        after == self && grid_reacts(
            self.maker_of(),
            self.shape_of().dim,
            context,
            signal,
            context_after,
        )
    }

    /// The cells are drawn one after the other, each in its room.
    open spec fn paints(
        self,
        constraint: Box2D,
        canvas: Seq<DrawOp>,
        canvas_after: Seq<DrawOp>,
    ) -> bool {
        grid_painted(self.maker_of(), self.shape_of(), constraint, canvas, canvas_after)
    }

    /// A grid would like the room it was made with.
    open spec fn sizes(self, size: (i32, i32)) -> bool {
        size == self.shape_of().size
    }

    fn on_event(&mut self, context: &mut Context, event: &Event) {
        proof {
            use_type_invariant(&*self);
        }
        signal_cells(&self.maker, self.dim, context, Signal::Event(*event));
    }

    fn tick(&mut self, context: &mut Context, dt: u64) {
        proof {
            use_type_invariant(&*self);
        }
        signal_cells(&self.maker, self.dim, context, Signal::Tick(dt));
    }

    fn get_size(&self) -> (size: (i32, i32)) {
        self.size
    }

    fn draw(&self, canvas: &mut Canvas, constraint: Box2D) {
        let shape = self.shape();
        draw_cells(&self.maker, &shape, canvas, constraint);
    }
}

} // verus!
