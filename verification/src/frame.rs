use crate::common::Sharable;
use crate::models::{Box2D, Color, Event};
use vstd::prelude::*;

verus! {

/// The longest simulation step, in microseconds: the 120th part of a second.
pub const TICK_STEP: u64 = 8_333;

/// How many simulation steps a frame takes at most, however long the frame
/// before it lasted.
pub const MAX_TICKS_PER_FRAME: usize = 8;

/// What an application is made of: the window's title and size, the colour
/// the window is cleared with, whether sounds are loaded, and the root of
/// the scene. `V` is the type of the views.
#[derive(Debug)]
pub struct App<'a, V> {
    pub title: &'a str,
    pub size: (u32, u32),
    pub color: Color,
    pub play_audio: bool,
    pub child: Option<Sharable<V>>,
}

/// One thing the frame loop does.
#[derive(Copy, Clone, Debug, PartialEq, Eq, Structural)]
pub enum FrameStep {
    /// Hand an input event to the scene.
    Dispatch(Event),
    /// Let the scene simulate this many microseconds.
    Tick(u64),
    /// Clear the window and draw the scene.
    Draw,
}

/// What the frame loop does in one frame, in order, and whether it ends
/// after that.
#[derive(Debug)]
pub struct FramePlan {
    pub steps: Vec<FrameStep>,
    pub quit: bool,
}

/// The simulation steps that use up `left` microseconds, at most `ticks` of
/// them: each as long as `TICK_STEP` but for the last, which takes what is
/// left.
pub open spec fn tick_steps(left: nat, ticks: nat) -> Seq<u64>
    decreases ticks,
{
    if ticks == 0 || left == 0 {
        Seq::empty()
    } else {
        let dt = if left < TICK_STEP {
            left
        } else {
            TICK_STEP as nat
        };
        seq![dt as u64] + tick_steps((left - dt) as nat, (ticks - 1) as nat)
    }
}

/// The place of the first request to quit among `events`, or their number
/// where there is none.
pub open spec fn first_quit(events: Seq<Event>) -> int
    decreases events.len(),
{
    if events.len() == 0 {
        0
    } else if events[0] == Event::Quit {
        0
    } else {
        1 + first_quit(events.drop_first())
    }
}

/// What a frame does with the input `events` after `elapsed` microseconds:
/// the events are dispatched in the order in which they came; a request to
/// quit ends the frame and the loop at once, before anything else; else the
/// simulation steps follow, and one drawing.
pub open spec fn frame_steps(events: Seq<Event>, elapsed: nat) -> Seq<FrameStep> {
    let quit_at = first_quit(events);
    let dispatched = events.subrange(0, quit_at).map_values(|e: Event| FrameStep::Dispatch(e));
    if quit_at < events.len() {
        dispatched
    } else {
        dispatched + tick_steps(elapsed, MAX_TICKS_PER_FRAME as nat).map_values(
            |dt: u64| FrameStep::Tick(dt),
        ) + seq![FrameStep::Draw]
    }
}

impl<'a, V> App<'a, V> {
    /// Whether a window of this size can be opened and drawn into: no side
    /// is zero, and each fits a pixel coordinate.
    pub open spec fn valid(&self) -> bool {
        &&& 0 < self.size.0 <= i32::MAX
        &&& 0 < self.size.1 <= i32::MAX
    }

    /// Whether a window of this size can be opened and drawn into.
    pub fn is_valid(&self) -> (ok: bool)
        ensures
            ok == self.valid(),
    {
        self.size.0 > 0 && self.size.0 <= 0x7fff_ffff && self.size.1 > 0 && self.size.1
            <= 0x7fff_ffff
    }

    /// The room the root of the scene is drawn into: the whole window.
    pub fn window(&self) -> (room: Box2D)
        requires
            self.valid(),
        ensures
            room.position == (0i32, 0i32),
            room.size.0 == self.size.0,
            room.size.1 == self.size.1,
    {
        Box2D { position: (0, 0), size: (self.size.0 as i32, self.size.1 as i32) }
    }
}

/// The simulation steps of a frame that comes `elapsed` microseconds after
/// the one before it.
pub fn plan_ticks(elapsed: u64) -> (steps: Vec<u64>)
    ensures
        steps@ == tick_steps(elapsed as nat, MAX_TICKS_PER_FRAME as nat),
{
    let mut steps: Vec<u64> = Vec::new();
    let mut left = elapsed;
    let mut ticks = MAX_TICKS_PER_FRAME;
    while ticks > 0 && left > 0
        invariant
            ticks <= MAX_TICKS_PER_FRAME,
            steps@ + tick_steps(left as nat, ticks as nat) == tick_steps(
                elapsed as nat,
                MAX_TICKS_PER_FRAME as nat,
            ),
        decreases ticks,
    {
        let dt = if left < TICK_STEP {
            left
        } else {
            TICK_STEP
        };
        proof {
            let rest = tick_steps((left - dt) as nat, (ticks - 1) as nat);
            assert(steps@.push(dt) + rest == steps@ + (seq![dt] + rest));
        }
        steps.push(dt);
        left -= dt;
        ticks -= 1;
    }
    assert(steps@ + Seq::<u64>::empty() == steps@);
    steps
}

/// What the frame loop does in one frame, given the input events that
/// wait and the microseconds since the frame before.
pub fn plan_frame(events: &Vec<Event>, elapsed: u64) -> (plan: FramePlan)
    ensures
        plan.steps@ == frame_steps(events@, elapsed as nat),
        plan.quit == (first_quit(events@) < events@.len()),
{
    let mut steps: Vec<FrameStep> = Vec::new();
    let mut i: usize = 0;
    proof {
        assert(events@.subrange(0, events@.len() as int) == events@);
        lemma_first_quit_is_a_place(events@);
    }
    while i < events.len()
        invariant
            i <= events@.len(),
            first_quit(events@) == i + first_quit(events@.subrange(i as int, events@.len() as int)),
            steps@ == events@.subrange(0, i as int).map_values(|e: Event| FrameStep::Dispatch(e)),
        decreases events@.len() - i,
    {
        let ghost rest = events@.subrange(i as int, events@.len() as int);
        assert(rest[0] == events@[i as int]);
        proof {
            lemma_first_quit_is_a_place(rest.drop_first());
        }
        match events[i] {
            Event::Quit => {
                return FramePlan { steps, quit: true };
            },
            _ => {},
        }
        proof {
            assert(rest.drop_first() == events@.subrange(i + 1, events@.len() as int));
            assert(events@.subrange(0, i + 1).map_values(|e: Event| FrameStep::Dispatch(e))
                == events@.subrange(0, i as int).map_values(|e: Event| FrameStep::Dispatch(e)).push(
                FrameStep::Dispatch(events@[i as int]),
            ));
        }
        steps.push(FrameStep::Dispatch(events[i]));
        i += 1;
    }
    assert(events@.subrange(i as int, events@.len() as int).len() == 0);
    let ticks = plan_ticks(elapsed);
    let ghost dispatched = steps@;
    let mut k: usize = 0;
    while k < ticks.len()
        invariant
            k <= ticks@.len(),
            steps@ == dispatched + ticks@.subrange(0, k as int).map_values(
                |dt: u64| FrameStep::Tick(dt),
            ),
        decreases ticks@.len() - k,
    {
        proof {
            assert(ticks@.subrange(0, k + 1).map_values(|dt: u64| FrameStep::Tick(dt))
                == ticks@.subrange(0, k as int).map_values(|dt: u64| FrameStep::Tick(dt)).push(
                FrameStep::Tick(ticks@[k as int]),
            ));
        }
        steps.push(FrameStep::Tick(ticks[k]));
        k += 1;
    }
    assert(ticks@.subrange(0, k as int) == ticks@);
    steps.push(FrameStep::Draw);
    FramePlan { steps, quit: false }
}

/// The place of the first request to quit lies among the events, or right
/// after them.
pub proof fn lemma_first_quit_is_a_place(events: Seq<Event>)
    ensures
        0 <= first_quit(events) <= events.len(),
        first_quit(events) < events.len() ==> events[first_quit(events)] == Event::Quit,
        forall|i: int| 0 <= i < first_quit(events) ==> events[i] != Event::Quit,
    decreases events.len(),
{
    if events.len() > 0 && events[0] != Event::Quit {
        let rest = events.drop_first();
        lemma_first_quit_is_a_place(rest);
        assert forall|i: int| 0 <= i < first_quit(events) implies events[i] != Event::Quit by {
            if i > 0 {
                assert(events[i] == rest[i - 1]);
            }
        }
        if first_quit(events) < events.len() {
            assert(events[first_quit(events)] == rest[first_quit(rest)]);
        }
    }
}

/// The sum of the steps of `steps`.
pub open spec fn total_of(steps: Seq<u64>) -> nat
    decreases steps.len(),
{
    if steps.len() == 0 {
        0
    } else {
        steps[0] as nat + total_of(steps.drop_first())
    }
}

/// A frame takes at most `ticks` simulation steps, none longer than
/// `TICK_STEP` and none empty, and together they last as long as the time
/// that passed, or `ticks` full steps where more time passed.
pub proof fn lemma_ticks_are_bounded(left: nat, ticks: nat)
    requires
        left <= u64::MAX,
    ensures
        tick_steps(left, ticks).len() <= ticks,
        forall|i: int|
            0 <= i < tick_steps(left, ticks).len() ==> 0 < (#[trigger] tick_steps(left, ticks)[i])
                <= TICK_STEP,
        total_of(tick_steps(left, ticks)) == if left < ticks * TICK_STEP {
            left as int
        } else {
            ticks * TICK_STEP
        },
    decreases ticks,
{
    if ticks == 0 || left == 0 {
    } else {
        let dt = if left < TICK_STEP {
            left
        } else {
            TICK_STEP as nat
        };
        let rest = tick_steps((left - dt) as nat, (ticks - 1) as nat);
        lemma_ticks_are_bounded((left - dt) as nat, (ticks - 1) as nat);
        let all = tick_steps(left, ticks);
        assert(all == seq![dt as u64] + rest);
        assert(all.drop_first() == rest);
        assert forall|i: int| 0 <= i < all.len() implies 0 < (#[trigger] all[i]) <= TICK_STEP by {
            if i > 0 {
                assert(all[i] == rest[i - 1]);
            }
        }
        assert((ticks - 1) * TICK_STEP + TICK_STEP == ticks * TICK_STEP) by (nonlinear_arith);
        if left < TICK_STEP {
            assert(ticks * TICK_STEP >= TICK_STEP) by (nonlinear_arith)
                requires
                    ticks >= 1,
            ;
            assert((ticks - 1) * TICK_STEP >= 0) by (nonlinear_arith)
                requires
                    ticks >= 1,
            ;
        }
    }
}

} // verus!
