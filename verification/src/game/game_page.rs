use crate::common::clock::{advanced, ClockView};
use crate::common::Clock;
use vstd::prelude::*;

verus! {

/// How long the page shakes after the snake died, in microseconds.
pub const SHAKE_TIME: u64 = 250_000;

/// The state of the page that holds the game: the clock that times how long
/// the page shakes after the snake died.
#[derive(Copy, Clone, Debug)]
pub struct GamePageState {
    shake_clock: Clock,
}

impl View for GamePageState {
    type V = ClockView;

    /// The page's clock.
    closed spec fn view(&self) -> ClockView {
        self.shake_clock@
    }
}

/// The page's clock after `dt` microseconds, and whether the shaking is to
/// stop now. While the page does not shake, nothing happens. While it does,
/// the clock counts, and when it fires the shaking stops and the clock is
/// paused for good.
pub open spec fn calmed(clock: ClockView, shaking: bool, dt: nat) -> (ClockView, bool) {
    if !shaking {
        (clock, false)
    } else if advanced(clock, dt).1 {
        (ClockView { running: false, ..advanced(clock, dt).0 }, true)
    } else {
        (advanced(clock, dt).0, false)
    }
}

impl GamePageState {
    /// The clock's interval is positive.
    pub open spec fn wf(&self) -> bool {
        self@.interval > 0
    }

    /// A page that has not shaken yet.
    pub fn new() -> (page: GamePageState)
        ensures
            page.wf(),
            page@ == (ClockView { interval: SHAKE_TIME as nat, elapsed: 0, running: true }),
    {
        GamePageState { shake_clock: Clock::new(Some(SHAKE_TIME)) }
    }

    /// Lets `dt` microseconds pass, and says whether the shaking is to stop
    /// now.
    pub fn tick(&mut self, shaking: bool, dt: u64) -> (calm: bool)
        requires
            old(self).wf(),
        ensures
            final(self).wf(),
            (final(self)@, calm) == calmed(old(self)@, shaking, dt as nat),
    {
        if shaking {
            if self.shake_clock.advance(dt) {
                self.shake_clock.pause();
                return true;
            }
        }
        false
    }
}

impl Default for GamePageState {
    fn default() -> (page: GamePageState)
        ensures
            page.wf(),
    {
        GamePageState::new()
    }
}

/// Once the shaking has stopped, the page's clock never fires again.
pub proof fn lemma_page_calms_once(clock: ClockView, dt: nat, later: nat)
    requires
        calmed(clock, true, dt).1,
    ensures
        !calmed(calmed(clock, true, dt).0, true, later).1,
{
}

} // verus!
