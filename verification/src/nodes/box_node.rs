use super::Node;
use crate::canvas::{Canvas, DrawOp};
use crate::context::Context;
use crate::models::{Box2D, Color, Event, Signal};
use vstd::prelude::*;

verus! {

/// A leaf that fills the room it is given with one colour.
#[derive(Copy, Clone, Debug, PartialEq, Eq, Structural)]
pub struct BoxNode {
    pub color: Color,
}

impl Default for BoxNode {
    fn default() -> (node: BoxNode)
        ensures
            node.color.argb == 0,
    {
        BoxNode { color: Color { argb: 0 } }
    }
}

impl Node for BoxNode {
    /// A box takes no notice of signals.
    open spec fn reacts(
        self,
        context: Context,
        signal: Signal,
        after: Self,
        context_after: Context,
    ) -> bool {
        after == self && context_after == context
    }

    /// A box gives one order: to fill its room with its colour.
    open spec fn paints(
        self,
        constraint: Box2D,
        canvas: Seq<DrawOp>,
        canvas_after: Seq<DrawOp>,
    ) -> bool {
        canvas_after == canvas.push(DrawOp::Rect(constraint, self.color))
    }

    /// A box would like all the room there is.
    open spec fn sizes(self, size: (i32, i32)) -> bool {
        size == (i32::MAX, i32::MAX)
    }

    fn on_event(&mut self, context: &mut Context, event: &Event) {
    }

    fn tick(&mut self, context: &mut Context, dt: u64) {
    }

    fn get_size(&self) -> (size: (i32, i32))
        ensures
            size == (i32::MAX, i32::MAX),
    {
        (i32::MAX, i32::MAX)
    }

    fn draw(&self, canvas: &mut Canvas, constraint: Box2D) {
        canvas.draw_rect(constraint, self.color);
    }
}

} // verus!
