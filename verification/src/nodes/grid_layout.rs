use crate::models::Box2D;
use vstd::arithmetic::div_mod::{
    lemma_fundamental_div_mod, lemma_fundamental_div_mod_converse, lemma_mod_bound,
};
use vstd::prelude::*;

verus! {

/// The lesser of the length a grid wants and the length it is offered.
pub open spec fn used_length(own: int, offered: int) -> int {
    if own < offered {
        own
    } else {
        offered
    }
}

/// The length of one cell along an axis on which `count` cells and the gaps
/// between them share `used`: an equal share of what the gaps leave, rounded
/// down, and nothing where the gaps leave nothing.
pub open spec fn cell_length(used: int, gap: int, count: int) -> int {
    if used > gap * (count - 1) {
        (used - gap * (count - 1)) / count
    } else {
        0
    }
}

/// How far a grid that uses `used` of the `offered` length lies from the
/// start of the room: all of the spare length where it is pushed to the end,
/// half of it, rounded down, where it is centred.
pub open spec fn lead(offered: int, used: int, at_end: bool) -> int {
    if at_end {
        offered - used
    } else {
        (offered - used) / 2
    }
}

/// Where the cell with number `step` along an axis starts.
pub open spec fn cell_start(
    origin: int,
    offered: int,
    own: int,
    gap: int,
    count: int,
    step: int,
    at_end: bool,
) -> int {
    let used = used_length(own, offered);
    origin + lead(offered, used, at_end) + step * (cell_length(used, gap, count) + gap)
}

/// The shape of a grid: how many columns and rows, the gaps between them,
/// the room the grid wants, and whether it sits at the bottom of the room it
/// is offered or in the middle. Across, it always sits in the middle.
#[derive(Copy, Clone, Debug)]
pub struct GridShape {
    pub dim: (usize, usize),
    pub gap: (i32, i32),
    pub size: (i32, i32),
    pub at_bottom: bool,
}

impl GridShape {
    /// There is a cell, the number of cells fits the machine, and the gaps
    /// are positive.
    pub open spec fn valid(self) -> bool {
        &&& self.dim.0 > 0
        &&& self.dim.1 > 0
        &&& self.dim.0 * self.dim.1 <= usize::MAX
        &&& self.gap.0 > 0
        &&& self.gap.1 > 0
    }

    /// How many cells there are.
    pub open spec fn cells(self) -> nat {
        (self.dim.0 * self.dim.1) as nat
    }

    /// The left edge of cell `index` in the room `constraint`.
    pub open spec fn cell_x(self, constraint: Box2D, index: int) -> int {
        cell_start(
            constraint.position.0 as int,
            constraint.size.0 as int,
            self.size.0 as int,
            self.gap.0 as int,
            self.dim.0 as int,
            index % (self.dim.0 as int),
            false,
        )
    }

    /// The top edge of cell `index` in the room `constraint`.
    pub open spec fn cell_y(self, constraint: Box2D, index: int) -> int {
        cell_start(
            constraint.position.1 as int,
            constraint.size.1 as int,
            self.size.1 as int,
            self.gap.1 as int,
            self.dim.1 as int,
            index / (self.dim.0 as int),
            self.at_bottom,
        )
    }

    /// The width of every cell in the room `constraint`.
    pub open spec fn cell_width(self, constraint: Box2D) -> int {
        cell_length(
            used_length(self.size.0 as int, constraint.size.0 as int),
            self.gap.0 as int,
            self.dim.0 as int,
        )
    }

    /// The height of every cell in the room `constraint`.
    pub open spec fn cell_height(self, constraint: Box2D) -> int {
        cell_length(
            used_length(self.size.1 as int, constraint.size.1 as int),
            self.gap.1 as int,
            self.dim.1 as int,
        )
    }

    /// Whether cell `index` lies where whole pixels can name it.
    pub open spec fn cell_fits(self, constraint: Box2D, index: int) -> bool {
        &&& i32::MIN <= self.cell_x(constraint, index) <= i32::MAX
        &&& i32::MIN <= self.cell_y(constraint, index) <= i32::MAX
    }

    /// The room of cell `index`, where it fits.
    pub open spec fn cell(self, constraint: Box2D, index: int) -> Option<Box2D> {
        if self.cell_fits(constraint, index) {
            Some(
                Box2D {
                    position: (
                        self.cell_x(constraint, index) as i32,
                        self.cell_y(constraint, index) as i32,
                    ),
                    size: (
                        self.cell_width(constraint) as i32,
                        self.cell_height(constraint) as i32,
                    ),
                },
            )
        } else {
            None
        }
    }

    /// Whether the shape is valid.
    pub fn is_valid(&self) -> (ok: bool)
        ensures
            ok == self.valid(),
    {
        if self.dim.0 == 0 || self.dim.1 == 0 {
            return false;
        }
        if self.gap.0 <= 0 || self.gap.1 <= 0 {
            return false;
        }
        match self.dim.0.checked_mul(self.dim.1) {
            Some(_) => true,
            None => false,
        }
    }

    /// How many cells there are.
    pub fn cell_count(&self) -> (n: usize)
        requires
            self.valid(),
        ensures
            n == self.cells(),
    {
        self.dim.0 * self.dim.1
    }

    /// The room of cell `index` in the room `constraint`: cells are numbered
    /// row by row from the top left. `None` where the cell would start
    /// beyond what whole pixels can name.
    pub fn cell_box(&self, constraint: Box2D, index: usize) -> (room: Option<Box2D>)
        requires
            self.valid(),
        ensures
            room == self.cell(constraint, index as int),
    {
        let (x, width) = axis(
            constraint.position.0,
            constraint.size.0,
            self.size.0,
            self.gap.0,
            self.dim.0,
            index % self.dim.0,
            false,
        );
        let (y, height) = axis(
            constraint.position.1,
            constraint.size.1,
            self.size.1,
            self.gap.1,
            self.dim.1,
            index / self.dim.0,
            self.at_bottom,
        );
        if x < i32::MIN as i128 || x > i32::MAX as i128 || y < i32::MIN as i128 || y
            > i32::MAX as i128 {
            return None;
        }
        Some(Box2D { position: (x as i32, y as i32), size: (width as i32, height as i32) })
    }
}

/// Where the cell with number `step` starts along one axis, and how long
/// every cell is.
fn axis(
    origin: i32,
    offered: i32,
    own: i32,
    gap: i32,
    count: usize,
    step: usize,
    at_end: bool,
) -> (found: (i128, i128))
    requires
        gap > 0,
        count > 0,
    ensures
        found.0 == cell_start(
            origin as int,
            offered as int,
            own as int,
            gap as int,
            count as int,
            step as int,
            at_end,
        ),
        found.1 == cell_length(used_length(own as int, offered as int), gap as int, count as int),
        0 <= found.1 <= i32::MAX,
{
    let used: i128 = if own < offered {
        own as i128
    } else {
        offered as i128
    };
    let between: i128 = (count - 1) as i128;
    assert(0 <= (gap as int) * (between as int) <= 0x8000_0000 * 0x1_0000_0000_0000_0000)
        by (nonlinear_arith)
        requires
            0 < gap <= 0x7fff_ffff,
            0 <= between < 0x1_0000_0000_0000_0000,
    ;
    let gaps: i128 = gap as i128 * between;
    let cell: i128 = if used > gaps {
        let share: i128 = used - gaps;
        let cell = share / (count as i128);
        proof {
            let s = share as int;
            let c = count as int;
            lemma_fundamental_div_mod(s, c);
            lemma_mod_bound(s, c);
            assert(0 <= s / c <= s) by (nonlinear_arith)
                requires
                    s == c * (s / c) + (s % c),
                    0 <= s % c < c,
                    c >= 1,
                    s >= 0,
            ;
        }
        cell
    } else {
        0
    };
    let spare: i128 = offered as i128 - used;
    let lead: i128 = if at_end {
        spare
    } else {
        spare / 2
    };
    let stride: i128 = cell + gap as i128;
    assert(0 <= (step as int) * (stride as int) <= 0x1_0000_0000_0000_0000 * 0x1_0000_0000)
        by (nonlinear_arith)
        requires
            0 <= step < 0x1_0000_0000_0000_0000,
            0 < stride <= 0x1_0000_0000,
    ;
    let start: i128 = origin as i128 + lead + step as i128 * stride;
    (start, cell)
}

/// In a row, each cell starts one gap after the cell to its left ends, at
/// the same height and with the same size.
pub proof fn lemma_cells_tile_a_row(shape: GridShape, constraint: Box2D, index: int)
    requires
        shape.valid(),
        0 <= index,
        index % (shape.dim.0 as int) + 1 < shape.dim.0,
    ensures
        shape.cell_x(constraint, index + 1) == shape.cell_x(constraint, index) + shape.cell_width(
            constraint,
        ) + shape.gap.0,
        shape.cell_y(constraint, index + 1) == shape.cell_y(constraint, index),
{
    let cols = shape.dim.0 as int;
    let step = index % cols;
    let row = index / cols;
    lemma_fundamental_div_mod(index, cols);
    assert(index + 1 == cols * row + (step + 1));
    lemma_fundamental_div_mod_converse(index + 1, cols, row, step + 1);
    let stride = shape.cell_width(constraint) + shape.gap.0;
    assert((step + 1) * stride == step * stride + stride) by (nonlinear_arith);
}

/// In a column, each cell starts one gap after the cell above it ends, at
/// the same distance from the left and with the same size.
pub proof fn lemma_cells_tile_a_column(shape: GridShape, constraint: Box2D, index: int)
    requires
        shape.valid(),
        0 <= index,
    ensures
        shape.cell_y(constraint, index + shape.dim.0) == shape.cell_y(constraint, index)
            + shape.cell_height(constraint) + shape.gap.1,
        shape.cell_x(constraint, index + shape.dim.0) == shape.cell_x(constraint, index),
{
    let cols = shape.dim.0 as int;
    let step = index % cols;
    let row = index / cols;
    lemma_fundamental_div_mod(index, cols);
    lemma_mod_bound(index, cols);
    assert(index + cols == cols * (row + 1) + step) by (nonlinear_arith)
        requires
            index == cols * row + step,
    ;
    lemma_fundamental_div_mod_converse(index + cols, cols, row + 1, step);
    let stride = shape.cell_height(constraint) + shape.gap.1;
    assert((row + 1) * stride == row * stride + stride) by (nonlinear_arith);
}

/// Where the gaps leave room, the cells and the gaps between them fill the
/// length the grid uses but for less than one pixel per cell.
pub proof fn lemma_cells_fill_the_length(used: int, gap: int, count: int)
    requires
        count > 0,
        gap > 0,
        used > gap * (count - 1),
    ensures
        count * cell_length(used, gap, count) + gap * (count - 1) <= used,
        used - (count * cell_length(used, gap, count) + gap * (count - 1)) < count,
        cell_length(used, gap, count) >= 0,
{
    let share = used - gap * (count - 1);
    lemma_fundamental_div_mod(share, count);
    lemma_mod_bound(share, count);
    assert(share / count >= 0) by (nonlinear_arith)
        requires
            share == count * (share / count) + share % count,
            0 <= share % count < count,
            share > 0,
            count > 0,
    ;
}

} // verus!
