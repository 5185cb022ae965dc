use view_engine::common::clock::DEFAULT_INTERVAL;
use view_engine::common::{Clock, Ticker};

#[test]
fn new_clock_runs() {
    let clock = Clock::new(Some(50_000));
    assert!(clock.is_running());
    assert_eq!(clock.interval(), 50_000);
}

#[test]
fn clock_without_interval_takes_one_second() {
    let clock = Clock::new(None);
    assert_eq!(clock.interval(), 1_000_000);
    assert_eq!(DEFAULT_INTERVAL, 1_000_000);
    assert_eq!(Clock::default(), Clock::new(None));
}

#[test]
fn fires_when_the_interval_is_reached() {
    let mut clock = Clock::new(Some(10));
    assert!(!clock.advance(4));
    assert!(!clock.advance(5));
    assert!(clock.advance(1));
    assert!(!clock.advance(9));
    assert!(clock.advance(1));
}

#[test]
fn keeps_the_remainder_after_a_fire() {
    let mut clock = Clock::new(Some(10));
    assert!(clock.advance(13));
    assert!(!clock.advance(6));
    assert!(clock.advance(1));
}

#[test]
fn fires_once_per_whole_interval_of_the_total() {
    let mut clock = Clock::new(Some(7));
    let steps: [u64; 10] = [3, 6, 1, 5, 5, 2, 6, 4, 3, 6];
    let mut fires = 0;
    let mut total = 0;
    for dt in steps {
        if clock.advance(dt) {
            fires += 1;
        }
        total += dt;
    }
    assert_eq!(total, 41);
    assert_eq!(fires, 5);
}

#[test]
fn fires_at_most_once_per_call() {
    let mut clock = Clock::new(Some(10));
    assert!(clock.advance(35));
    assert!(clock.advance(0));
    assert!(clock.advance(0));
    assert!(!clock.advance(0));
}

#[test]
fn a_paused_clock_never_fires() {
    let mut clock = Clock::new(Some(10));
    assert!(!clock.advance(9));
    clock.pause();
    assert!(!clock.is_running());
    assert!(!clock.advance(1));
    assert!(!clock.advance(1_000_000));
    assert!(!clock.advance(u64::MAX));
}

#[test]
fn huge_steps_do_not_overflow() {
    let mut clock = Clock::new(Some(u64::MAX));
    assert!(!clock.advance(u64::MAX - 1));
    assert!(clock.advance(u64::MAX));
    assert!(clock.advance(1));
}

#[test]
fn ticker_is_the_same_clock() {
    let mut ticker = Ticker::new(Some(20_000));
    assert!(!ticker.advance(19_999));
    assert!(ticker.advance(1));
    ticker.pause();
    assert!(!ticker.advance(20_000));
}
