use crate::canvas::{Canvas, DrawOp};
use crate::common::Sharable;
use crate::context::Context;
use crate::models::{Box2D, Event, Signal};
use vstd::prelude::*;

verus! {

/// A view with any number of children, drawn one after the other, each in
/// the room the ones before it have left. `V` is the type of the views it
/// makes.
///
/// The `spec` functions say what the handlers may do. Left as they are, they
/// allow anything; a layout that overrides them is held to what it says.
pub trait MultiChildLayout<V>: Sized {
    /// Whether `signal` may turn this layout and `context` into `after` and
    /// `context_after`.
    open spec fn reacts(
        self,
        context: Context,
        signal: Signal,
        after: Self,
        context_after: Context,
    ) -> bool {
        true
    }

    /// Whether this layout, offered `constraint`, may make `children`.
    open spec fn makes(self, constraint: Box2D, children: Seq<Sharable<V>>) -> bool {
        true
    }

    /// Whether, of the room `constraint`, `left` may be what `child` leaves
    /// to the children after it.
    open spec fn narrows(self, constraint: Box2D, child: V, left: Box2D) -> bool {
        true
    }

    /// Whether `pre_draw` may turn the orders `canvas` into `canvas_after`.
    open spec fn paints_before(
        self,
        constraint: Box2D,
        canvas: Seq<DrawOp>,
        canvas_after: Seq<DrawOp>,
    ) -> bool {
        true
    }

    /// Whether `post_draw` may turn the orders `canvas` into `canvas_after`.
    open spec fn paints_after(
        self,
        constraint: Box2D,
        canvas: Seq<DrawOp>,
        canvas_after: Seq<DrawOp>,
    ) -> bool {
        true
    }

    /// Handles an input event, after the children have.
    fn on_event(&mut self, context: &mut Context, event: &Event)
        ensures
            old(self).reacts(*old(context), Signal::Event(*event), *final(self), *final(context)),
    ;

    /// Lets `dt` microseconds pass, after the children have.
    fn tick(&mut self, context: &mut Context, dt: u64)
        ensures
            old(self).reacts(*old(context), Signal::Tick(dt), *final(self), *final(context)),
    ;

    /// The room that is left of `constraint` once `child` was drawn in it.
    fn calc_rect_left(&self, constraint: Box2D, child: &V) -> (left: Box2D)
        ensures
            self.narrows(constraint, *child, left),
    ;

    /// Draws what goes under the children.
    fn pre_draw(&self, canvas: &mut Canvas, constraint: Box2D)
        ensures
            self.paints_before(constraint, old(canvas)@, final(canvas)@),
    ;

    /// The children for this pass, in the order in which they are visited.
    fn make(&self, constraint: Box2D) -> (children: Vec<Sharable<V>>)
        ensures
            self.makes(constraint, children@),
    ;

    /// Draws what goes over the children.
    fn post_draw(&self, canvas: &mut Canvas, constraint: Box2D)
        ensures
            self.paints_after(constraint, old(canvas)@, final(canvas)@),
    ;
}

} // verus!
