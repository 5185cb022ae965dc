use crate::canvas::{Canvas, DrawOp};
use crate::context::Context;
use crate::models::{Box2D, Event, Signal};
use vstd::prelude::*;

verus! {

/// A leaf of the tree: a view without children.
///
/// The `spec` functions say what the handlers may do and answer. Left as they are,
/// they allow anything; a node that overrides them is held to what it says.
pub trait Node: Sized {
    /// Whether `signal` may turn this node and `context` into `after` and
    /// `context_after`.
    open spec fn reacts(
        self,
        context: Context,
        signal: Signal,
        after: Self,
        context_after: Context,
    ) -> bool {
        true
    }

    /// Whether drawing this node into `constraint` may turn the orders
    /// `canvas` into `canvas_after`.
    open spec fn paints(
        self,
        constraint: Box2D,
        canvas: Seq<DrawOp>,
        canvas_after: Seq<DrawOp>,
    ) -> bool {
        true
    }

    /// Whether `size` may be the room this node says it would like.
    open spec fn sizes(self, size: (i32, i32)) -> bool {
        true
    }

    /// Handles an input event.
    fn on_event(&mut self, context: &mut Context, event: &Event)
        ensures
            old(self).reacts(*old(context), Signal::Event(*event), *final(self), *final(context)),
    ;

    /// Lets `dt` microseconds pass.
    fn tick(&mut self, context: &mut Context, dt: u64)
        ensures
            old(self).reacts(*old(context), Signal::Tick(dt), *final(self), *final(context)),
    ;

    /// The room this node would like.
    fn get_size(&self) -> (size: (i32, i32))
        ensures
            self.sizes(size),
    ;

    /// Draws this node into `constraint`.
    fn draw(&self, canvas: &mut Canvas, constraint: Box2D)
        ensures
            self.paints(constraint, old(canvas)@, final(canvas)@),
    ;
}

} // verus!
