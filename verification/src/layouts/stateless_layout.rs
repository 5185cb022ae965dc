use crate::canvas::{Canvas, DrawOp};
use crate::common::Sharable;
use crate::context::Context;
use crate::models::{Box2D, Event, Signal};
use vstd::prelude::*;

verus! {

/// A view with at most one child and no state beyond its own fields. `V` is
/// the type of the views it makes.
///
/// The `spec` functions say what the handlers may do. Left as they are, they
/// allow anything; a layout that overrides them is held to what it says.
pub trait StatelessLayout<V>: Sized {
    /// Whether `signal` may turn this layout and `context` into `after` and
    /// `context_after`.
    open spec fn reacts(
        self,
        context: Context,
        signal: Signal,
        after: Self,
        context_after: Context,
    ) -> bool {
        true
    }

    /// Whether this layout, offered `constraint`, may make `child`.
    open spec fn makes(self, constraint: Box2D, child: Option<Sharable<V>>) -> bool {
        true
    }

    /// Whether `pre_draw` may turn the orders `canvas` into `canvas_after`.
    open spec fn paints_before(
        self,
        constraint: Box2D,
        canvas: Seq<DrawOp>,
        canvas_after: Seq<DrawOp>,
    ) -> bool {
        true
    }

    /// Whether `post_draw` may turn the orders `canvas` into `canvas_after`.
    open spec fn paints_after(
        self,
        constraint: Box2D,
        canvas: Seq<DrawOp>,
        canvas_after: Seq<DrawOp>,
    ) -> bool {
        true
    }

    /// Handles an input event, after the child has.
    fn on_event(&mut self, context: &mut Context, event: &Event)
        ensures
            old(self).reacts(*old(context), Signal::Event(*event), *final(self), *final(context)),
    ;

    /// Lets `dt` microseconds pass, after the child has.
    fn tick(&mut self, context: &mut Context, dt: u64)
        ensures
            old(self).reacts(*old(context), Signal::Tick(dt), *final(self), *final(context)),
    ;

    /// The room this layout would like.
    fn get_size(&self) -> (size: (i32, i32));

    /// Draws what goes under the child.
    fn pre_draw(&self, canvas: &mut Canvas, constraint: Box2D)
        ensures
            self.paints_before(constraint, old(canvas)@, final(canvas)@),
    ;

    /// The child for this pass, if there is one.
    fn make(&self, constraint: Box2D) -> (child: Option<Sharable<V>>)
        ensures
            self.makes(constraint, child),
    ;

    /// Draws what goes over the child.
    fn post_draw(&self, canvas: &mut Canvas, constraint: Box2D)
        ensures
            self.paints_after(constraint, old(canvas)@, final(canvas)@),
    ;
}

} // verus!
