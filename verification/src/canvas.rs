use crate::models::{Box2D, Color};
use vstd::prelude::*;

verus! {

/// One order to the drawing surface.
#[derive(Copy, Clone, Debug)]
pub enum DrawOp {
    /// Fill the whole surface with a colour.
    Clear(Color),
    /// Fill a rectangle with a colour.
    Rect(Box2D, Color),
    /// Remember the transform in force.
    Save,
    /// Shift what is drawn from here on by `radius` pixels in the direction
    /// that is `turn` parts in 2^32 of a full turn.
    Shift { radius: u32, turn: u32 },
    /// Go back to the transform that was remembered last.
    Restore,
}

/// The orders that a draw pass has given so far, in order. The surface
/// carries them out afterwards.
#[derive(Debug)]
pub struct Canvas {
    ops: Vec<DrawOp>,
}

impl View for Canvas {
    type V = Seq<DrawOp>;

    closed spec fn view(&self) -> Seq<DrawOp> {
        self.ops@
    }
}

impl Canvas {
    /// A canvas with no order on it.
    pub fn new() -> (canvas: Canvas)
        ensures
            canvas@ == Seq::<DrawOp>::empty(),
    {
        Canvas { ops: Vec::new() }
    }

    /// Orders the whole surface to be filled with `color`.
    pub fn clear(&mut self, color: Color)
        ensures
            final(self)@ == old(self)@.push(DrawOp::Clear(color)),
    {
        self.ops.push(DrawOp::Clear(color));
    }

    /// Orders `rect` to be filled with `color`.
    pub fn draw_rect(&mut self, rect: Box2D, color: Color)
        ensures
            final(self)@ == old(self)@.push(DrawOp::Rect(rect, color)),
    {
        self.ops.push(DrawOp::Rect(rect, color));
    }

    /// Orders the transform in force to be remembered.
    pub fn save(&mut self)
        ensures
            final(self)@ == old(self)@.push(DrawOp::Save),
    {
        self.ops.push(DrawOp::Save);
    }

    /// Orders what follows to be shifted by `radius` pixels in the direction
    /// `turn`.
    pub fn translate(&mut self, radius: u32, turn: u32)
        ensures
            final(self)@ == old(self)@.push(DrawOp::Shift { radius, turn }),
    {
        self.ops.push(DrawOp::Shift { radius, turn });
    }

    /// Orders the transform that was remembered last to be put back.
    pub fn restore(&mut self)
        ensures
            final(self)@ == old(self)@.push(DrawOp::Restore),
    {
        self.ops.push(DrawOp::Restore);
    }

    /// How many orders there are.
    pub fn len(&self) -> (n: usize)
        ensures
            n == self@.len(),
    {
        self.ops.len()
    }

    /// The order at place `index`.
    pub fn op(&self, index: usize) -> (op: DrawOp)
        requires
            index < self@.len(),
        ensures
            op == self@[index as int],
    {
        self.ops[index]
    }

    /// Hands out the orders, first given first, and leaves the canvas empty.
    pub fn take_ops(&mut self) -> (ops: Vec<DrawOp>)
        ensures
            ops@ == old(self)@,
            final(self)@ == Seq::<DrawOp>::empty(),
    {
        let mut ops: Vec<DrawOp> = Vec::new();
        std::mem::swap(&mut ops, &mut self.ops);
        ops
    }
}

} // verus!
