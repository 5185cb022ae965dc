use view_engine::canvas::DrawOp;
use view_engine::common::Sharable;
use view_engine::engine::Fault;
use view_engine::layouts::{MultiChildLayout, State, StatefulLayout, StatelessLayout};
use view_engine::models::{Box2D, Color, Event, Key};
use view_engine::nodes::Node;
use view_engine::view::{
    FromMultiChildLayout, FromNode, FromStatefulLayout, FromStatelessLayout, IntoViewFromNode,
};
use view_engine::{Canvas, Context, Engine, View};

type Scene = View<Frame, Counter, Row, Leaf>;

/// A leaf that says its name when a signal comes, and draws a box in the
/// colour of its number.
struct Leaf {
    name: &'static str,
    paint: u32,
}

impl Node for Leaf {
    fn on_event(&mut self, context: &mut Context, _event: &Event) {
        context.play_sound(self.name);
    }

    fn tick(&mut self, context: &mut Context, _dt: u64) {
        context.play_sound(self.name);
    }

    fn get_size(&self) -> (i32, i32) {
        (i32::MAX, i32::MAX)
    }

    fn draw(&self, canvas: &mut Canvas, constraint: Box2D) {
        canvas.draw_rect(constraint, Color::new(self.paint));
    }
}

/// A layout with many children that takes 10 pixels off the left of the
/// room for every child drawn.
struct Row {
    name: &'static str,
    children: Vec<(&'static str, u32)>,
    shared: Vec<usize>,
}

impl MultiChildLayout<Scene> for Row {
    fn on_event(&mut self, context: &mut Context, _event: &Event) {
        context.play_sound(self.name);
    }

    fn tick(&mut self, context: &mut Context, _dt: u64) {
        context.play_sound(self.name);
    }

    fn calc_rect_left(&self, constraint: Box2D, child: &Scene) -> Box2D {
        let used = match child {
            View::Node(leaf) => leaf.paint as i32,
            _ => 0,
        };
        Box2D {
            position: (constraint.position.0 + used, constraint.position.1),
            size: (constraint.size.0 - used, constraint.size.1),
        }
    }

    fn pre_draw(&self, canvas: &mut Canvas, _constraint: Box2D) {
        canvas.save();
    }

    fn make(&self, _constraint: Box2D) -> Vec<Sharable<Scene>> {
        let mut made: Vec<Sharable<Scene>> = self
            .children
            .iter()
            .map(|(name, paint)| Sharable::Owned(View::Node(Box::new(Leaf { name, paint: *paint }))))
            .collect();
        for slot in &self.shared {
            made.push(Sharable::Shared(*slot));
        }
        made
    }

    fn post_draw(&self, canvas: &mut Canvas, _constraint: Box2D) {
        canvas.restore();
    }
}

/// A stateless layout round one leaf, or round nothing.
struct Frame {
    name: &'static str,
    child: Option<&'static str>,
}

impl StatelessLayout<Scene> for Frame {
    fn on_event(&mut self, context: &mut Context, _event: &Event) {
        context.play_sound(self.name);
    }

    fn tick(&mut self, context: &mut Context, _dt: u64) {
        context.play_sound(self.name);
    }

    fn get_size(&self) -> (i32, i32) {
        (i32::MAX, i32::MAX)
    }

    fn pre_draw(&self, canvas: &mut Canvas, _constraint: Box2D) {
        canvas.save();
    }

    fn make(&self, _constraint: Box2D) -> Option<Sharable<Scene>> {
        self.child.map(|name| Sharable::Owned(View::Node(Box::new(Leaf { name, paint: 1 }))))
    }

    fn post_draw(&self, canvas: &mut Canvas, _constraint: Box2D) {
        canvas.restore();
    }
}

/// A stateful layout whose state counts the signals it got.
struct Counter {
    key: &'static str,
    start: u32,
    nested: Option<&'static str>,
}

struct Count {
    seen: u32,
    made_by: &'static str,
    nested: Option<&'static str>,
}

impl StatefulLayout<Count> for Counter {
    fn get_key(&self) -> &str {
        self.key
    }

    fn make_state(&mut self) -> Count {
        Count { seen: self.start, made_by: self.key, nested: self.nested }
    }
}

impl State<Scene> for Count {
    fn on_event(&mut self, context: &mut Context, _event: &Event) {
        self.seen += 1;
        context.play_sound(self.made_by);
    }

    fn tick(&mut self, context: &mut Context, dt: u64) {
        self.seen += dt as u32;
        context.play_sound(self.made_by);
    }

    fn get_size(&self) -> (i32, i32) {
        (i32::MAX, i32::MAX)
    }

    fn pre_draw(&self, canvas: &mut Canvas, _constraint: Box2D) {
        canvas.translate(self.seen, 0);
    }

    fn make(&self, _constraint: Box2D) -> Option<Sharable<Scene>> {
        self.nested.map(|key| {
            Sharable::Owned(View::StatefulLayout(Box::new(Counter { key, start: 100, nested: None })))
        })
    }

    fn post_draw(&self, canvas: &mut Canvas, _constraint: Box2D) {
        canvas.restore();
    }
}

fn names(list: &[&str]) -> Vec<String> {
    list.iter().map(|name| name.to_string()).collect()
}

fn context() -> Context {
    Context::new(names(&["a", "b", "c", "row", "frame", "k1", "k2", "inner"]))
}

fn key_event() -> Event {
    Event::KeyDown(Some(Key::Up))
}

fn room(x: i32, y: i32, w: i32, h: i32) -> Box2D {
    Box2D { position: (x, y), size: (w, h) }
}

fn row_of_three() -> Scene {
    View::MultiChildLayout(Box::new(Row {
        name: "row",
        children: vec![("a", 10), ("b", 20), ("c", 30)],
        shared: vec![],
    }))
}

#[test]
fn events_reach_the_children_in_order_and_the_parent_last() {
    let mut engine: Engine<Count, Scene> = Engine::new(16);
    let mut context = context();
    let mut view = row_of_three();
    engine.on_event(&mut view, &mut context, &key_event());
    assert_eq!(context.take_queued(), names(&["a", "b", "c", "row"]));
    assert!(engine.take_faults().is_empty());
}

#[test]
fn ticks_reach_the_children_in_order_and_the_parent_last() {
    let mut engine: Engine<Count, Scene> = Engine::new(16);
    let mut context = context();
    let mut view = row_of_three();
    engine.tick(&mut view, &mut context, 8_333);
    engine.tick(&mut view, &mut context, 8_333);
    assert_eq!(context.take_queued(), names(&["a", "b", "c", "row", "a", "b", "c", "row"]));
}

#[test]
fn children_are_drawn_between_the_layers_each_in_the_room_left() {
    let mut engine: Engine<Count, Scene> = Engine::new(16);
    let mut canvas = Canvas::new();
    let mut view = row_of_three();
    engine.draw_view(&mut view, &mut canvas, room(0, 5, 100, 50));
    let ops = canvas.take_ops();
    assert_eq!(ops.len(), 5);
    assert!(matches!(ops[0], DrawOp::Save));
    match ops[1] {
        DrawOp::Rect(rect, color) => {
            assert_eq!(rect, room(0, 5, 100, 50));
            assert_eq!(color, Color::new(10));
        },
        _ => panic!("the first child comes second"),
    }
    match ops[2] {
        DrawOp::Rect(rect, color) => {
            assert_eq!(rect, room(10, 5, 90, 50));
            assert_eq!(color, Color::new(20));
        },
        _ => panic!("the second child comes third"),
    }
    match ops[3] {
        DrawOp::Rect(rect, color) => {
            assert_eq!(rect, room(30, 5, 70, 50));
            assert_eq!(color, Color::new(30));
        },
        _ => panic!("the third child comes fourth"),
    }
    assert!(matches!(ops[4], DrawOp::Restore));
}

#[test]
fn a_leaf_alone_is_handled_and_drawn() {
    let mut engine: Engine<Count, Scene> = Engine::new(1);
    let mut context = context();
    let mut canvas = Canvas::new();
    let mut view: Scene = View::Node(Box::new(Leaf { name: "a", paint: 7 }));
    engine.on_event(&mut view, &mut context, &Event::Other);
    engine.draw_view(&mut view, &mut canvas, room(1, 2, 3, 4));
    assert_eq!(context.take_queued(), names(&["a"]));
    assert_eq!(canvas.len(), 1);
    assert!(matches!(canvas.op(0), DrawOp::Rect(rect, _) if rect == room(1, 2, 3, 4)));
}

#[test]
fn stateless_layout_visits_its_child_first() {
    let mut engine: Engine<Count, Scene> = Engine::new(16);
    let mut context = context();
    let mut canvas = Canvas::new();
    let mut view: Scene = View::StatelessLayout(Box::new(Frame { name: "frame", child: Some("a") }));
    engine.on_event(&mut view, &mut context, &key_event());
    assert_eq!(context.take_queued(), names(&["a", "frame"]));
    engine.draw_view(&mut view, &mut canvas, room(0, 0, 8, 8));
    let ops = canvas.take_ops();
    assert_eq!(ops.len(), 3);
    assert!(matches!(ops[0], DrawOp::Save));
    assert!(matches!(ops[1], DrawOp::Rect(rect, _) if rect == room(0, 0, 8, 8)));
    assert!(matches!(ops[2], DrawOp::Restore));
}

#[test]
fn a_layout_without_child_still_handles_signals_and_draws_nothing() {
    let mut engine: Engine<Count, Scene> = Engine::new(16);
    let mut context = context();
    let mut canvas = Canvas::new();
    let mut view: Scene = View::StatelessLayout(Box::new(Frame { name: "frame", child: None }));
    engine.tick(&mut view, &mut context, 5);
    assert_eq!(context.take_queued(), names(&["frame"]));
    engine.draw_view(&mut view, &mut canvas, room(0, 0, 8, 8));
    assert_eq!(canvas.len(), 0);
}

#[test]
fn a_state_is_made_once_and_kept() {
    let mut engine: Engine<Count, Scene> = Engine::new(16);
    let mut context = context();
    assert!(!engine.has_state("k1"));
    let mut first: Scene = View::StatefulLayout(Box::new(Counter { key: "k1", start: 5, nested: None }));
    engine.on_event(&mut first, &mut context, &key_event());
    assert!(engine.has_state("k1"));
    assert_eq!(engine.state("k1").map(|count| count.seen), Some(6));
    engine.on_event(&mut first, &mut context, &key_event());
    assert_eq!(engine.state("k1").map(|count| count.seen), Some(7));
    assert_eq!(engine.state_count(), 1);
}

#[test]
fn layouts_with_one_key_share_one_state() {
    let mut engine: Engine<Count, Scene> = Engine::new(16);
    let mut context = context();
    let mut first: Scene = View::StatefulLayout(Box::new(Counter { key: "k1", start: 5, nested: None }));
    let mut second: Scene =
        View::StatefulLayout(Box::new(Counter { key: "k1", start: 50, nested: None }));
    engine.on_event(&mut first, &mut context, &key_event());
    engine.tick(&mut second, &mut context, 10);
    assert_eq!(engine.state("k1").map(|count| count.seen), Some(16));
    assert_eq!(engine.state_count(), 1);
}

#[test]
fn layouts_with_different_keys_never_share_a_state() {
    let mut engine: Engine<Count, Scene> = Engine::new(16);
    let mut context = context();
    let mut first: Scene = View::StatefulLayout(Box::new(Counter { key: "k1", start: 5, nested: None }));
    let mut second: Scene =
        View::StatefulLayout(Box::new(Counter { key: "k2", start: 50, nested: None }));
    engine.on_event(&mut first, &mut context, &key_event());
    engine.on_event(&mut second, &mut context, &key_event());
    engine.on_event(&mut second, &mut context, &key_event());
    assert_eq!(engine.state("k1").map(|count| count.seen), Some(6));
    assert_eq!(engine.state("k2").map(|count| count.seen), Some(52));
    assert_eq!(engine.state_count(), 2);
    assert!(engine.state("k3").is_none());
}

#[test]
fn a_stateful_layout_visits_the_child_of_its_state_first() {
    let mut engine: Engine<Count, Scene> = Engine::new(16);
    let mut context = context();
    let mut view: Scene =
        View::StatefulLayout(Box::new(Counter { key: "k1", start: 0, nested: Some("inner") }));
    engine.on_event(&mut view, &mut context, &key_event());
    assert_eq!(context.take_queued(), names(&["inner", "k1"]));
    assert_eq!(engine.state("inner").map(|count| count.seen), Some(101));
    assert_eq!(engine.state("k1").map(|count| count.seen), Some(1));
}

#[test]
fn a_stateful_layout_draws_through_its_state() {
    let mut engine: Engine<Count, Scene> = Engine::new(16);
    let mut canvas = Canvas::new();
    let mut view: Scene =
        View::StatefulLayout(Box::new(Counter { key: "k1", start: 3, nested: Some("inner") }));
    engine.draw_view(&mut view, &mut canvas, room(0, 0, 8, 8));
    let ops = canvas.take_ops();
    assert_eq!(ops.len(), 2);
    assert!(matches!(ops[0], DrawOp::Shift { radius: 3, turn: 0 }));
    assert!(matches!(ops[1], DrawOp::Restore));
    assert!(engine.has_state("k1"));
    assert!(engine.has_state("inner"));
}

#[test]
fn a_shared_view_is_visited_where_it_is_named() {
    let mut engine: Engine<Count, Scene> = Engine::new(16);
    let mut context = context();
    let shared = engine.share(View::Node(Box::new(Leaf { name: "c", paint: 3 })));
    let slot = match shared {
        Sharable::Shared(slot) => slot,
        Sharable::Owned(_) => panic!("a shared child names a slot"),
    };
    assert_eq!(slot, 0);
    let mut view: Scene = View::MultiChildLayout(Box::new(Row {
        name: "row",
        children: vec![("a", 1)],
        shared: vec![slot, slot],
    }));
    engine.on_event(&mut view, &mut context, &key_event());
    assert_eq!(context.take_queued(), names(&["a", "c", "c", "row"]));
    assert!(engine.take_faults().is_empty());
}

#[test]
fn a_slot_that_does_not_exist_is_a_fault_and_is_skipped() {
    let mut engine: Engine<Count, Scene> = Engine::new(16);
    let mut context = context();
    let mut canvas = Canvas::new();
    let mut view: Scene = View::MultiChildLayout(Box::new(Row {
        name: "row",
        children: vec![("a", 10)],
        shared: vec![4],
    }));
    engine.on_event(&mut view, &mut context, &key_event());
    assert_eq!(context.take_queued(), names(&["a", "row"]));
    assert_eq!(engine.take_faults(), vec![Fault::Vacant(4)]);
    engine.draw_view(&mut view, &mut canvas, room(0, 0, 50, 50));
    assert_eq!(canvas.len(), 3);
    assert_eq!(engine.take_faults(), vec![Fault::Vacant(4)]);
    assert!(engine.take_faults().is_empty());
}

#[test]
fn a_view_below_the_depth_limit_is_a_fault_and_is_skipped() {
    let mut engine: Engine<Count, Scene> = Engine::new(1);
    let mut context = context();
    let mut view = row_of_three();
    engine.on_event(&mut view, &mut context, &key_event());
    assert_eq!(context.take_queued(), names(&["row"]));
    assert_eq!(engine.take_faults(), vec![Fault::TooDeep, Fault::TooDeep, Fault::TooDeep]);
    let mut flat: Engine<Count, Scene> = Engine::new(0);
    flat.on_event(&mut view, &mut context, &key_event());
    assert!(context.take_queued().is_empty());
    assert_eq!(flat.take_faults(), vec![Fault::TooDeep]);
}

#[test]
fn conversions_wrap_each_kind_as_an_owned_child() {
    let leaf: Option<Sharable<Scene>> = FromNode::from(Leaf { name: "a", paint: 1 });
    assert!(matches!(leaf, Some(Sharable::Owned(View::Node(_)))));
    let frame: Option<Sharable<Scene>> =
        FromStatelessLayout::from(Frame { name: "frame", child: None });
    assert!(matches!(frame, Some(Sharable::Owned(View::StatelessLayout(_)))));
    let counter: Option<Sharable<Scene>> =
        FromStatefulLayout::from(Counter { key: "k1", start: 0, nested: None });
    assert!(matches!(counter, Some(Sharable::Owned(View::StatefulLayout(_)))));
    let row: Option<Sharable<Scene>> =
        FromMultiChildLayout::from(Row { name: "row", children: vec![], shared: vec![] });
    assert!(matches!(row, Some(Sharable::Owned(View::MultiChildLayout(_)))));
    let again: Option<Sharable<Scene>> =
        IntoViewFromNode::<Frame, Counter, Row>::into_view(Leaf { name: "b", paint: 2 });
    match again {
        Some(Sharable::Owned(View::Node(leaf))) => assert_eq!(leaf.name, "b"),
        _ => panic!("a leaf becomes an owned leaf view"),
    }
}

#[test]
fn sharable_from_a_value_is_owned() {
    let owned: Sharable<u8> = Sharable::from(7);
    assert!(matches!(owned, Sharable::Owned(7)));
    assert!(matches!(Sharable::<u8>::owned(9), Sharable::Owned(9)));
    assert!(matches!(Sharable::<u8>::shared(3), Sharable::Shared(3)));
}

#[test]
fn a_root_may_be_owned_or_shared() {
    let mut engine: Engine<Count, Scene> = Engine::default();
    assert_eq!(engine.max_depth(), usize::MAX);
    let mut context = context();
    let mut canvas = Canvas::new();
    let mut owned: Sharable<Scene> = Sharable::Owned(row_of_three());
    let mut shared = engine.share(row_of_three());
    let depth = engine.max_depth();
    engine.deliver_to_sharable(
        &mut owned,
        &mut context,
        view_engine::models::Signal::Event(key_event()),
        depth,
    );
    engine.deliver_to_sharable(&mut shared, &mut context, view_engine::models::Signal::Tick(1), depth);
    assert_eq!(context.take_queued(), names(&["a", "b", "c", "row", "a", "b", "c", "row"]));
    engine.draw_sharable(&mut shared, &mut canvas, room(0, 0, 100, 100), depth);
    assert_eq!(canvas.len(), 5);
    assert!(engine.take_faults().is_empty());
}

#[test]
fn a_shared_view_that_names_itself_is_a_fault() {
    let mut engine: Engine<Count, Scene> = Engine::new(16);
    let mut context = context();
    let mut looped = engine.share(View::MultiChildLayout(Box::new(Row {
        name: "row",
        children: vec![("a", 1)],
        shared: vec![0],
    })));
    engine.deliver_to_sharable(
        &mut looped,
        &mut context,
        view_engine::models::Signal::Event(key_event()),
        16,
    );
    assert_eq!(context.take_queued(), names(&["a", "row"]));
    assert_eq!(engine.take_faults(), vec![Fault::Vacant(0)]);
    engine.deliver_to_sharable(
        &mut looped,
        &mut context,
        view_engine::models::Signal::Event(key_event()),
        16,
    );
    assert_eq!(context.take_queued(), names(&["a", "row"]));
}
