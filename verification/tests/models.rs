use view_engine::canvas::DrawOp;
use view_engine::common::asset_loader::sound_key;
use view_engine::game::GamePageState;
use view_engine::layouts::shake::{SHAKE_INTERVAL, SHAKE_STRENGTH};
use view_engine::layouts::ShakeState;
use view_engine::models::color::{BLACK, CYAN, DARK_GRAY, GREEN, RED};
use view_engine::models::{Box2D, Color, Direction, Event};
use view_engine::nodes::{BoxNode, Node, Shake};
use view_engine::{Canvas, Context};

#[test]
fn directions_have_opposites() {
    assert_eq!(Direction::Up.opposite(), Direction::Down);
    assert_eq!(Direction::Right.opposite(), Direction::Left);
    assert_eq!(Direction::Down.opposite(), Direction::Up);
    assert_eq!(Direction::Left.opposite(), Direction::Right);
    assert_eq!(Direction::default(), Direction::Up);
}

#[test]
fn directions_are_numbered_clockwise() {
    assert_eq!(Direction::from_index(0), Some(Direction::Up));
    assert_eq!(Direction::from_index(1), Some(Direction::Right));
    assert_eq!(Direction::from_index(2), Some(Direction::Down));
    assert_eq!(Direction::from_index(3), Some(Direction::Left));
    assert_eq!(Direction::from_index(4), None);
}

#[test]
fn the_widest_room_starts_at_the_origin() {
    assert_eq!(Box2D::unconstrained(), Box2D { position: (0, 0), size: (i32::MAX, i32::MAX) });
    assert_eq!(Box2D::default(), Box2D { position: (0, 0), size: (0, 0) });
    assert_ne!(Box2D::default(), Box2D { position: (0, 1), size: (0, 0) });
}

#[test]
fn colours_are_four_bytes() {
    assert_eq!(Color::new(RED).argb, 0xFFFF_0000);
    assert_eq!(BLACK, 0xFF00_0000);
    assert_eq!(DARK_GRAY, 0xFF44_4444);
    assert_eq!(CYAN, 0xFF00_FFFF);
    assert_eq!(GREEN, 0xFF00_FF00);
    assert_eq!(Color::default().argb, 0);
}

#[test]
fn context_queues_sounds_in_order() {
    let mut context = Context::new(vec!["die".to_string(), "eat".to_string()]);
    assert!(context.has_sound("die"));
    assert!(context.has_sound("eat"));
    assert!(!context.has_sound("turn"));
    assert!(!context.has_sound(""));
    context.play_sound("eat");
    context.play_sound("die");
    context.play_sound("eat");
    assert_eq!(context.take_queued(), vec!["eat", "die", "eat"]);
    assert!(context.take_queued().is_empty());
    assert!(context.has_sound("die"));
}

#[test]
fn canvas_keeps_the_orders_in_order() {
    let mut canvas = Canvas::new();
    canvas.clear(Color::new(BLACK));
    canvas.save();
    canvas.translate(16, 0x4000_0000);
    canvas.draw_rect(Box2D { position: (1, 2), size: (3, 4) }, Color::new(RED));
    canvas.restore();
    assert_eq!(canvas.len(), 5);
    assert!(matches!(canvas.op(0), DrawOp::Clear(color) if color.argb == BLACK));
    assert!(matches!(canvas.op(1), DrawOp::Save));
    assert!(matches!(canvas.op(2), DrawOp::Shift { radius: 16, turn: 0x4000_0000 }));
    assert!(matches!(canvas.op(3), DrawOp::Rect(rect, _) if rect.size == (3, 4)));
    assert!(matches!(canvas.op(4), DrawOp::Restore));
    assert_eq!(canvas.take_ops().len(), 5);
    assert_eq!(canvas.len(), 0);
}

#[test]
fn sound_keys_are_paths_below_the_base_without_extension() {
    assert_eq!(sound_key("assets/sounds/", "assets/sounds/die.wav"), Some("die".to_string()));
    assert_eq!(
        sound_key("assets/sounds/", "assets/sounds/ui/click.ogg"),
        Some("ui/click".to_string())
    );
    assert_eq!(sound_key("assets/sounds/", "assets/sounds/noext"), Some("noext".to_string()));
    assert_eq!(sound_key("a/", "a/b.tar.gz"), Some("b.tar".to_string()));
    assert_eq!(sound_key("a/", "a/"), Some(String::new()));
    assert_eq!(sound_key("", "x.wav"), Some("x".to_string()));
}

#[test]
fn a_dot_in_a_directory_is_no_extension() {
    assert_eq!(sound_key("s/", "s/a.b/c"), Some("a.b/c".to_string()));
    assert_eq!(sound_key("s/", "s/a.b/c.wav"), Some("a.b/c".to_string()));
    assert_eq!(sound_key("a/", "a/v1.2/x"), Some("v1.2/x".to_string()));
    assert_eq!(sound_key("a\\", "a\\v1.2\\x.ogg"), Some("v1.2\\x".to_string()));
    assert_eq!(sound_key("a/", "a/b.c/"), Some("b.c/".to_string()));
}

#[test]
fn a_dot_at_the_start_of_a_file_name_is_no_extension() {
    assert_eq!(sound_key("a/", "a/.hidden"), Some(".hidden".to_string()));
    assert_eq!(sound_key("a/", "a/dir/.hidden"), Some("dir/.hidden".to_string()));
    assert_eq!(sound_key("a/", "a/dir/.hid.wav"), Some("dir/.hid".to_string()));
    assert_eq!(sound_key("a/", "a/x."), Some("x".to_string()));
}

#[test]
fn sound_keys_need_the_base() {
    assert_eq!(sound_key("assets/sounds/", "assets/images/a.png"), None);
    assert_eq!(sound_key("assets/sounds/", "assets"), None);
    assert_eq!(sound_key("b.x/", "a.x/f.wav"), None);
}

#[test]
fn a_shake_that_is_off_does_nothing() {
    let mut shake = ShakeState::new();
    let mut canvas = Canvas::new();
    shake.tick(false, 1_000_000);
    assert!(!shake.advance(false, 1_000_000));
    shake.pre_draw(false, &mut canvas);
    shake.post_draw(false, &mut canvas);
    assert_eq!(canvas.len(), 0);
}

#[test]
fn a_shake_that_is_on_shifts_the_drawing() {
    let mut shake = ShakeState::new();
    let mut canvas = Canvas::new();
    assert_eq!(SHAKE_STRENGTH, 16);
    assert!(!shake.advance(true, SHAKE_INTERVAL - 1));
    assert!(shake.advance(true, 1));
    shake.set_angle(12345);
    shake.tick(true, 1);
    shake.pre_draw(true, &mut canvas);
    shake.post_draw(true, &mut canvas);
    assert_eq!(canvas.len(), 3);
    assert!(matches!(canvas.op(0), DrawOp::Save));
    assert!(matches!(canvas.op(1), DrawOp::Shift { radius: 16, turn: 12345 }));
    assert!(matches!(canvas.op(2), DrawOp::Restore));
    shake.tick(true, SHAKE_INTERVAL);
    assert!(shake.is_wf());
}

#[test]
fn a_shaking_node_wraps_its_child() {
    let mut shake = Shake::new(true, BoxNode { color: Color::new(RED) });
    let mut context = Context::new(vec![]);
    let mut canvas = Canvas::new();
    shake.on_event(&mut context, &Event::Other);
    shake.tick(&mut context, 100);
    shake.draw(&mut canvas, Box2D { position: (0, 0), size: (4, 4) });
    assert_eq!(canvas.len(), 4);
    assert!(matches!(canvas.op(0), DrawOp::Save));
    assert!(matches!(canvas.op(1), DrawOp::Shift { radius: 16, turn: 0 }));
    assert!(matches!(canvas.op(2), DrawOp::Rect(_, color) if color.argb == RED));
    assert!(matches!(canvas.op(3), DrawOp::Restore));
    shake.set_enabled(false);
    shake.draw(&mut canvas, Box2D { position: (0, 0), size: (4, 4) });
    assert_eq!(canvas.len(), 5);
    assert_eq!(shake.get_size(), (i32::MAX, i32::MAX));
}

#[test]
fn the_page_stops_shaking_after_a_quarter_of_a_second() {
    let mut page = GamePageState::new();
    assert!(!page.tick(false, 1_000_000));
    assert!(!page.tick(true, 100_000));
    assert!(!page.tick(true, 149_999));
    assert!(page.tick(true, 1));
    assert!(!page.tick(true, 1_000_000));
    assert!(!page.tick(true, 1_000_000));
}

#[test]
fn owning_views_go_by_their_own_names() {
    let view = view_engine::views::BoxView { color: Color::new(CYAN) };
    let mut canvas = Canvas::new();
    view_engine::views::View::draw(&view, &mut canvas, Box2D::default());
    assert_eq!(canvas.len(), 1);
    let game = view_engine::views::SnakeGrid::started(Direction::Up);
    game.draw(&mut canvas, Box2D { position: (0, 0), size: (860, 860) });
    assert_eq!(canvas.len(), 1 + 961);
    match canvas.op(1) {
        DrawOp::Rect(rect, color) => {
            assert_eq!(rect, Box2D { position: (0, 0), size: (20, 20) });
            assert_eq!(color.argb, RED);
        },
        _ => panic!("the board is made of boxes"),
    }
    assert!(matches!(canvas.op(1 + 480), DrawOp::Rect(_, color) if color.argb == CYAN));
    assert!(matches!(canvas.op(1 + 32), DrawOp::Rect(_, color) if color.argb == DARK_GRAY || color.argb == GREEN));
}

#[test]
fn the_default_view_is_a_plain_box() {
    let view: view_engine::View<u8, u8, u8, BoxNode> = Default::default();
    match view {
        view_engine::View::Node(node) => assert_eq!(*node, BoxNode::default()),
        _ => panic!("the default view is a leaf"),
    }
}
