use vstd::arithmetic::div_mod::lemma_fundamental_div_mod_converse;
use vstd::prelude::*;

verus! {

/// The interval of a clock made without one: one second.
pub const DEFAULT_INTERVAL: u64 = 1_000_000;

/// A clock that lets one event through per fixed interval of time. Time is
/// counted in whole microseconds.
#[derive(Copy, Clone, Debug, PartialEq, Eq)]
pub struct Clock {
    interval: u64,
    elapsed: u64,
    is_running: bool,
}

/// What a clock is, as plain numbers.
pub struct ClockView {
    pub interval: nat,
    pub elapsed: nat,
    pub running: bool,
}

/// The clock after `dt` more microseconds, and whether it fired. A clock that
/// is not running stays as it is. A running clock adds `dt` to the time it has
/// gathered; where that reaches the interval it fires once, and keeps what
/// is beyond one interval. What it keeps is capped at `u64::MAX`.
pub open spec fn advanced(clock: ClockView, dt: nat) -> (ClockView, bool) {
    if !clock.running {
        (clock, false)
    } else if clock.elapsed + dt >= clock.interval {
        let kept = clock.elapsed + dt - clock.interval;
        (
            ClockView {
                interval: clock.interval,
                elapsed: if kept > u64::MAX {
                    u64::MAX as nat
                } else {
                    kept as nat
                },
                running: true,
            },
            true,
        )
    } else {
        (ClockView { interval: clock.interval, elapsed: clock.elapsed + dt, running: true }, false)
    }
}

/// The clock after the time steps of `dts`, one after the other.
pub open spec fn advanced_through(clock: ClockView, dts: Seq<nat>) -> ClockView
    decreases dts.len(),
{
    if dts.len() == 0 {
        clock
    } else {
        advanced(advanced_through(clock, dts.drop_last()), dts.last()).0
    }
}

/// How often the clock fires over the time steps of `dts`.
pub open spec fn fires(clock: ClockView, dts: Seq<nat>) -> nat
    decreases dts.len(),
{
    if dts.len() == 0 {
        0
    } else {
        let before = advanced_through(clock, dts.drop_last());
        fires(clock, dts.drop_last()) + if advanced(before, dts.last()).1 {
            1nat
        } else {
            0nat
        }
    }
}

/// The sum of the time steps of `dts`.
pub open spec fn total(dts: Seq<nat>) -> nat
    decreases dts.len(),
{
    if dts.len() == 0 {
        0
    } else {
        total(dts.drop_last()) + dts.last()
    }
}

impl View for Clock {
    type V = ClockView;

    closed spec fn view(&self) -> ClockView {
        ClockView {
            interval: self.interval as nat,
            elapsed: self.elapsed as nat,
            running: self.is_running,
        }
    }
}

impl Clock {
    /// The interval is positive.
    pub open spec fn wf(&self) -> bool {
        self@.interval > 0
    }

    /// The numbers of a clock fit in 64 bits.
    pub proof fn lemma_view_fits(&self)
        ensures
            self@.interval <= u64::MAX,
            self@.elapsed <= u64::MAX,
    {
    }

    /// A running clock with the given interval, or with one second where none
    /// is given, that has gathered no time yet.
    pub fn new(interval: Option<u64>) -> (clock: Clock)
        requires
            interval matches Some(value) ==> value > 0,
        ensures
            clock.wf(),
            clock@ == (ClockView {
                interval: match interval {
                    Some(value) => value as nat,
                    None => DEFAULT_INTERVAL as nat,
                },
                elapsed: 0,
                running: true,
            }),
    {
        let interval = match interval {
            Some(value) => value,
            None => DEFAULT_INTERVAL,
        };
        Clock { interval, elapsed: 0, is_running: true }
    }

    /// The interval, in microseconds.
    pub fn interval(&self) -> (interval: u64)
        ensures
            interval == self@.interval,
    {
        self.interval
    }

    /// Whether the clock still counts time.
    pub fn is_running(&self) -> (running: bool)
        ensures
            running == self@.running,
    {
        self.is_running
    }

    /// Whether the clock would fire if `dt` more microseconds were counted.
    pub fn fires_after(&self, dt: u64) -> (fires: bool)
        ensures
            fires == advanced(self@, dt as nat).1,
    {
        self.is_running && self.elapsed as u128 + dt as u128 >= self.interval as u128
    }

    /// Counts `dt` more microseconds, and says whether the clock fired. It
    /// fires at most once, however long `dt` is.
    pub fn advance(&mut self, dt: u64) -> (fired: bool)
        requires
            old(self).wf(),
        ensures
            final(self).wf(),
            (final(self)@, fired) == advanced(old(self)@, dt as nat),
    {
        if !self.is_running {
            return false;
        }
        let sum: u128 = self.elapsed as u128 + dt as u128;
        if sum >= self.interval as u128 {
            let kept: u128 = sum - self.interval as u128;
            self.elapsed = if kept > u64::MAX as u128 {
                u64::MAX
            } else {
                kept as u64
            };
            true
        } else {
            self.elapsed = sum as u64;
            false
        }
    }

    /// Stops the clock for good: it never fires again.
    pub fn pause(&mut self)
        ensures
            final(self)@ == (ClockView { running: false, ..old(self)@ }),
    {
        self.is_running = false;
    }
}

impl Default for Clock {
    fn default() -> (clock: Clock)
        ensures
            clock.wf(),
            clock@ == (ClockView {
                interval: DEFAULT_INTERVAL as nat,
                elapsed: 0,
                running: true,
            }),
    {
        Clock::new(None)
    }
}

/// A running clock that has gathered no time, fed time steps that are each
/// shorter than its interval, fires once for every whole interval in their
/// sum, and keeps the remainder.
pub proof fn lemma_fires_once_per_interval(clock: ClockView, dts: Seq<nat>)
    requires
        0 < clock.interval <= u64::MAX,
        clock.running,
        clock.elapsed == 0,
        forall|i: int| 0 <= i < dts.len() ==> dts[i] < clock.interval,
    ensures
        fires(clock, dts) == total(dts) / clock.interval,
        advanced_through(clock, dts).elapsed == total(dts) % clock.interval,
        advanced_through(clock, dts).running,
        advanced_through(clock, dts).interval == clock.interval,
    decreases dts.len(),
{
    if dts.len() == 0 {
        vstd::arithmetic::div_mod::lemma_small_mod(0, clock.interval);
        vstd::arithmetic::div_mod::lemma_div_basics(clock.interval as int);
    } else {
        let earlier = dts.drop_last();
        lemma_fires_once_per_interval(clock, earlier);
        let before = advanced_through(clock, earlier);
        let interval = clock.interval as int;
        let q = fires(clock, earlier) as int;
        let r = before.elapsed as int;
        vstd::arithmetic::div_mod::lemma_fundamental_div_mod(total(earlier) as int, interval);
        assert(total(earlier) == interval * q + r);
        vstd::arithmetic::div_mod::lemma_mod_bound(total(earlier) as int, interval);
        let step = dts.last() as int;
        if r + step >= interval {
            assert(total(dts) == interval * (q + 1) + (r + step - interval)) by (nonlinear_arith)
                requires
                    total(dts) == total(earlier) + step,
                    total(earlier) == interval * q + r,
            ;
            lemma_fundamental_div_mod_converse(
                total(dts) as int,
                interval,
                q + 1,
                r + step - interval,
            );
        } else {
            assert(total(dts) == interval * q + (r + step));
            lemma_fundamental_div_mod_converse(total(dts) as int, interval, q, r + step);
        }
    }
}

/// A clock that was paused never fires again, whatever time passes, and stays
/// as it is.
pub proof fn lemma_paused_never_fires(clock: ClockView, dts: Seq<nat>)
    requires
        !clock.running,
    ensures
        fires(clock, dts) == 0,
        advanced_through(clock, dts) == clock,
    decreases dts.len(),
{
    if dts.len() > 0 {
        lemma_paused_never_fires(clock, dts.drop_last());
    }
}

/// Right after it fired on a step shorter than two intervals less what it
/// had gathered, a clock has gathered less than one interval.
pub proof fn lemma_fire_keeps_phase(clock: ClockView, dt: nat)
    requires
        clock.interval > 0,
        advanced(clock, dt).1,
        clock.elapsed + dt < 2 * clock.interval,
    ensures
        advanced(clock, dt).0.elapsed < clock.interval,
{
}

} // verus!
