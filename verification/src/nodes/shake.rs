use super::Node;
use crate::canvas::{Canvas, DrawOp};
use crate::common::clock::advanced;
use crate::context::Context;
use crate::engine::stage;
use crate::layouts::shake::{fresh_shake, shake_after, shake_before, ShakeState, ShakeView};
use crate::models::{Box2D, Event, Signal};
use vstd::prelude::*;

verus! {

/// A view that owns one child and, while it is enabled, shakes it.
#[derive(Debug)]
pub struct Shake<C> {
    state: ShakeState,
    is_enabled: bool,
    child: C,
}

impl<C> Shake<C> {
    /// The shake's own state.
    pub closed spec fn state(self) -> ShakeView {
        self.state@
    }

    /// Whether the child is shaken.
    pub closed spec fn enabled(self) -> bool {
        self.is_enabled
    }

    /// The child.
    pub closed spec fn child(self) -> C {
        self.child
    }

    /// The shake's clock has a positive interval.
    pub closed spec fn wf(self) -> bool {
        self.state.wf()
    }

    /// A shake round `child`.
    pub fn new(is_enabled: bool, child: C) -> (shake: Self)
        ensures
            shake.wf(),
            shake.enabled() == is_enabled,
            shake.child() == child,
            shake.state() == fresh_shake(),
    {
        Shake { state: ShakeState::new(), is_enabled, child }
    }

    /// Starts or stops the shaking.
    pub fn set_enabled(&mut self, is_enabled: bool)
        ensures
            final(self).wf() == old(self).wf(),
            final(self).enabled() == is_enabled,
            final(self).child() == old(self).child(),
            final(self).state() == old(self).state(),
    {
        self.is_enabled = is_enabled;
    }
}

impl<C: Node> Node for Shake<C> {
    /// An event goes to the child and leaves the shake as it is. Time first
    /// makes the shake's own clock count, where it is enabled, and the
    /// direction change when that clock fires; then the child gets it.
    open spec fn reacts(
        self,
        context: Context,
        signal: Signal,
        after: Self,
        context_after: Context,
    ) -> bool {
        &&& after.enabled() == self.enabled()
        &&& self.child().reacts(context, signal, after.child(), context_after)
        &&& after.state().strength == self.state().strength
        &&& match signal {
            Signal::Event(_) => after.state() == self.state(),
            Signal::Tick(dt) => if self.enabled() && self.wf() {
                &&& after.state().clock == advanced(self.state().clock, dt as nat).0
                &&& !advanced(self.state().clock, dt as nat).1 ==> after.state().angle
                    == self.state().angle
            } else {
                after.state() == self.state()
            },
        }
    }

    /// The child is drawn between the orders that shift and those that put
    /// the transform back.
    open spec fn paints(
        self,
        constraint: Box2D,
        canvas: Seq<DrawOp>,
        canvas_after: Seq<DrawOp>,
    ) -> bool {
        exists|canvas_mid: Seq<DrawOp>|
            {
                &&& #[trigger] stage(canvas_mid)
                &&& self.child().paints(
                    constraint,
                    canvas + shake_before(self.state(), self.enabled()),
                    canvas_mid,
                )
                &&& canvas_after == canvas_mid + shake_after(self.enabled())
            }
    }

    /// A shake would like the room its child would like.
    open spec fn sizes(self, size: (i32, i32)) -> bool {
        self.child().sizes(size)
    }

    fn on_event(&mut self, context: &mut Context, event: &Event) {
        self.child.on_event(context, event);
    }

    fn tick(&mut self, context: &mut Context, dt: u64) {
        if self.is_enabled && self.state.is_wf() {
            self.state.tick(true, dt);
        }
        self.child.tick(context, dt);
    }

    fn get_size(&self) -> (size: (i32, i32)) {
        self.child.get_size()
    }

    fn draw(&self, canvas: &mut Canvas, constraint: Box2D) {
        self.state.pre_draw(self.is_enabled, canvas);
        self.child.draw(canvas, constraint);
        let ghost canvas_mid = canvas@;
        self.state.post_draw(self.is_enabled, canvas);
        assert(stage(canvas_mid));
    }
}

} // verus!
