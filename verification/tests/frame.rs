use view_engine::frame::{
    plan_frame, plan_ticks, App, FrameStep, MAX_TICKS_PER_FRAME, TICK_STEP,
};
use view_engine::models::{Box2D, Color, Event, Key};

fn app(size: (u32, u32)) -> App<'static, u8> {
    App { title: "Snake", size, color: Color::default(), play_audio: true, child: None }
}

#[test]
fn a_short_frame_takes_one_short_step() {
    assert_eq!(plan_ticks(5_000), vec![5_000]);
    assert_eq!(plan_ticks(1), vec![1]);
}

#[test]
fn no_time_takes_no_step() {
    assert!(plan_ticks(0).is_empty());
}

#[test]
fn a_frame_is_cut_into_steps_of_the_120th_of_a_second() {
    assert_eq!(TICK_STEP, 8_333);
    assert_eq!(plan_ticks(8_333), vec![8_333]);
    assert_eq!(plan_ticks(16_667), vec![8_333, 8_333, 1]);
    assert_eq!(plan_ticks(20_000), vec![8_333, 8_333, 3_334]);
}

#[test]
fn a_long_frame_takes_eight_steps_and_drops_the_rest() {
    assert_eq!(MAX_TICKS_PER_FRAME, 8);
    assert_eq!(plan_ticks(1_000_000), vec![8_333; 8]);
    assert_eq!(plan_ticks(u64::MAX), vec![8_333; 8]);
    assert_eq!(plan_ticks(8 * 8_333), vec![8_333; 8]);
    assert_eq!(plan_ticks(8 * 8_333 - 1), vec![8_333, 8_333, 8_333, 8_333, 8_333, 8_333, 8_333, 8_332]);
}

#[test]
fn a_frame_dispatches_then_ticks_then_draws() {
    let events = vec![Event::KeyDown(Some(Key::W)), Event::Other];
    let plan = plan_frame(&events, 10_000);
    assert!(!plan.quit);
    assert_eq!(
        plan.steps,
        vec![
            FrameStep::Dispatch(Event::KeyDown(Some(Key::W))),
            FrameStep::Dispatch(Event::Other),
            FrameStep::Tick(8_333),
            FrameStep::Tick(1_667),
            FrameStep::Draw,
        ]
    );
}

#[test]
fn a_frame_without_input_or_time_only_draws() {
    let plan = plan_frame(&vec![], 0);
    assert!(!plan.quit);
    assert_eq!(plan.steps, vec![FrameStep::Draw]);
}

#[test]
fn quit_ends_the_frame_at_once() {
    let events = vec![Event::KeyDown(Some(Key::A)), Event::Quit, Event::KeyDown(Some(Key::D))];
    let plan = plan_frame(&events, 50_000);
    assert!(plan.quit);
    assert_eq!(plan.steps, vec![FrameStep::Dispatch(Event::KeyDown(Some(Key::A)))]);
    let first = plan_frame(&vec![Event::Quit], 50_000);
    assert!(first.quit);
    assert!(first.steps.is_empty());
}

#[test]
fn a_window_needs_two_sides() {
    assert!(app((830, 900)).is_valid());
    assert!(!app((0, 900)).is_valid());
    assert!(!app((830, 0)).is_valid());
    assert!(!app((u32::MAX, 1)).is_valid());
    assert!(app((i32::MAX as u32, 1)).is_valid());
}

#[test]
fn the_root_is_drawn_into_the_whole_window() {
    assert_eq!(app((830, 900)).window(), Box2D { position: (0, 0), size: (830, 900) });
}
