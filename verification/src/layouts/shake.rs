use crate::canvas::{Canvas, DrawOp};
use crate::common::clock::{advanced, ClockView};
use crate::common::random::random_bits;
use crate::common::Clock;
use vstd::prelude::*;

verus! {

/// How far a shaking view is shifted, in pixels.
pub const SHAKE_STRENGTH: u32 = 16;

/// The microseconds between two changes of the direction of the shift.
pub const SHAKE_INTERVAL: u64 = 20_000;

/// The state of a view that shakes what is below it: while it is enabled,
/// the drawing is shifted by a fixed length in a direction that changes at
/// random every fiftieth of a second.
#[derive(Copy, Clone, Debug)]
pub struct ShakeState {
    strength: u32,
    angle: u32,
    clock: Clock,
}

/// What a shake is, as plain values.
pub struct ShakeView {
    /// The length of the shift, in pixels.
    pub strength: u32,
    /// The direction of the shift, in parts in 2^32 of a full turn.
    pub angle: u32,
    pub clock: ClockView,
}

impl View for ShakeState {
    type V = ShakeView;

    closed spec fn view(&self) -> ShakeView {
        ShakeView { strength: self.strength, angle: self.angle, clock: self.clock@ }
    }
}

/// The orders that go before a shaken drawing: where the shake is enabled,
/// remember the transform and shift; else none.
pub open spec fn shake_before(shake: ShakeView, enabled: bool) -> Seq<DrawOp> {
    if enabled {
        seq![DrawOp::Save, DrawOp::Shift { radius: shake.strength, turn: shake.angle }]
    } else {
        Seq::empty()
    }
}

/// The orders that go after a shaken drawing: where the shake is enabled,
/// put the transform back; else none.
pub open spec fn shake_after(enabled: bool) -> Seq<DrawOp> {
    if enabled {
        seq![DrawOp::Restore]
    } else {
        Seq::empty()
    }
}

/// A shake at its start: `SHAKE_STRENGTH` pixels, pointing up, with no time
/// waited.
pub open spec fn fresh_shake() -> ShakeView {
    ShakeView {
        strength: SHAKE_STRENGTH,
        angle: 0,
        clock: ClockView { interval: SHAKE_INTERVAL as nat, elapsed: 0, running: true },
    }
}

impl ShakeState {
    /// The clock's interval is positive.
    pub open spec fn wf(&self) -> bool {
        self@.clock.interval > 0
    }

    /// Whether the clock's interval is positive.
    pub fn is_wf(&self) -> (ok: bool)
        ensures
            ok == self.wf(),
    {
        self.clock.interval() > 0
    }

    /// A shake of `SHAKE_STRENGTH` pixels that points up and has waited no
    /// time yet.
    pub fn new() -> (shake: ShakeState)
        ensures
            shake.wf(),
            shake@ == fresh_shake(),
    {
        ShakeState { strength: SHAKE_STRENGTH, angle: 0, clock: Clock::new(Some(SHAKE_INTERVAL)) }
    }

    /// Lets `dt` microseconds pass while the shake is enabled, and says
    /// whether the time for a new direction has come.
    pub fn advance(&mut self, enabled: bool, dt: u64) -> (due: bool)
        requires
            old(self).wf(),
        ensures
            final(self).wf(),
            final(self)@.strength == old(self)@.strength,
            final(self)@.angle == old(self)@.angle,
            enabled ==> (final(self)@.clock, due) == advanced(old(self)@.clock, dt as nat),
            !enabled ==> !due && final(self)@.clock == old(self)@.clock,
    {
        if enabled {
            self.clock.advance(dt)
        } else {
            false
        }
    }

    /// Points the shift in the direction `turn`, in parts in 2^32 of a full
    /// turn.
    pub fn set_angle(&mut self, turn: u32)
        ensures
            final(self)@ == (ShakeView { angle: turn, ..old(self)@ }),
    {
        self.angle = turn;
    }

    /// Lets `dt` microseconds pass. While the shake is enabled, the clock
    /// counts them, and every time it fires the shift gets a new direction,
    /// picked at random.
    pub fn tick(&mut self, enabled: bool, dt: u64)
        requires
            old(self).wf(),
        ensures
            final(self).wf(),
            final(self)@.strength == old(self)@.strength,
            enabled ==> final(self)@.clock == advanced(old(self)@.clock, dt as nat).0,
            !enabled ==> final(self)@ == old(self)@,
            !advanced(old(self)@.clock, dt as nat).1 ==> final(self)@.angle == old(self)@.angle,
    {
        if self.advance(enabled, dt) {
            let turn = random_bits();
            self.set_angle(turn);
        }
    }

    /// Gives the orders that go before the shaken drawing.
    pub fn pre_draw(&self, enabled: bool, canvas: &mut Canvas)
        ensures
            final(canvas)@ == old(canvas)@ + shake_before(self@, enabled),
    {
        if enabled {
            canvas.save();
            canvas.translate(self.strength, self.angle);
        }
    }

    /// Gives the orders that go after the shaken drawing.
    pub fn post_draw(&self, enabled: bool, canvas: &mut Canvas)
        ensures
            final(canvas)@ == old(canvas)@ + shake_after(enabled),
    {
        if enabled {
            canvas.restore();
        }
    }
}

impl Default for ShakeState {
    fn default() -> (shake: ShakeState)
        ensures
            shake.wf(),
    {
        ShakeState::new()
    }
}

} // verus!
