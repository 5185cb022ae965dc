use view_engine::game::snake_grid::{
    cell_color, heading, on_border, Tick, AIR, CELLS, CENTRE, DIM, FOOD, FREE_AT_START, INNER_CELLS,
    SNAKE, STEP_INTERVAL, WALL,
};
use view_engine::game::{SnakeGridState, SnakePart};
use view_engine::models::color::{CYAN, DARK_GRAY, GREEN, RED};
use view_engine::models::{Box2D, Direction, Event, Key};
use view_engine::Context;

fn context() -> Context {
    Context::new(vec!["die".to_string(), "eat".to_string(), "turn".to_string()])
}

fn key(key: Key) -> Event {
    Event::KeyDown(Some(key))
}

fn count(game: &SnakeGridState, kind: u8) -> usize {
    game.cells().iter().filter(|cell| **cell == kind).count()
}

fn food_cell(game: &SnakeGridState) -> usize {
    game.cells().iter().position(|cell| *cell == FOOD).unwrap()
}

fn step(game: &mut SnakeGridState, context: &mut Context) -> Tick {
    game.tick(context, STEP_INTERVAL)
}

fn key_for(direction: Direction) -> Key {
    match direction {
        Direction::Up => Key::W,
        Direction::Right => Key::Right,
        Direction::Down => Key::S,
        Direction::Left => Key::Left,
    }
}

fn cell_ahead(position: u16, direction: Direction) -> usize {
    match direction {
        Direction::Up => position as usize - 31,
        Direction::Right => position as usize + 1,
        Direction::Down => position as usize + 31,
        Direction::Left => position as usize - 1,
    }
}

fn distance(from: usize, to: usize) -> usize {
    (from / 31).abs_diff(to / 31) + (from % 31).abs_diff(to % 31)
}

fn turn_right(direction: Direction) -> Direction {
    match direction {
        Direction::Up => Direction::Right,
        Direction::Right => Direction::Down,
        Direction::Down => Direction::Left,
        Direction::Left => Direction::Up,
    }
}

/// Steers the snake to the food, never onto the wall or onto itself, and
/// returns what the step onto the food answered.
fn eat(game: &mut SnakeGridState, context: &mut Context) -> Tick {
    for _ in 0..400 {
        let head = game.head();
        let food = food_cell(game);
        let choices = [head.direction, turn_right(head.direction), turn_right(head.direction).opposite()];
        let safe: Vec<Direction> = choices
            .iter()
            .copied()
            .filter(|d| {
                let kind = game.cell(cell_ahead(head.position, *d));
                kind == AIR || kind == FOOD
            })
            .collect();
        let best = safe
            .iter()
            .copied()
            .min_by_key(|d| distance(cell_ahead(head.position, *d), food))
            .expect("a short snake always has a way out");
        if best != head.direction {
            game.on_event(context, &key(key_for(best)));
            assert_eq!(game.head().direction, best);
        }
        match step(game, context) {
            Tick::Moved => {},
            other => return other,
        }
    }
    panic!("the food was not reached");
}

#[test]
fn the_game_starts_with_the_snake_in_the_middle_and_one_food() {
    let game = SnakeGridState::started(Direction::Right);
    assert_eq!(CENTRE, (DIM >> 1) * DIM + (DIM >> 1));
    assert_eq!(game.head(), SnakePart { position: 480, direction: Direction::Right });
    assert_eq!(game.last(), game.head());
    assert_eq!(game.joint_count(), 0);
    assert!(game.can_turn());
    assert!(game.is_running());
    let cells = game.cells();
    assert_eq!(cells.len(), CELLS);
    assert_eq!(count(&game, SNAKE), 1);
    assert_eq!(count(&game, FOOD), 1);
    assert_eq!(count(&game, WALL), 120);
    assert_eq!(count(&game, AIR), 961 - 120 - 2);
    assert_eq!(cells[480], SNAKE);
    for cell in 0..CELLS {
        assert_eq!(cells[cell] == WALL, on_border(cell));
    }
    assert!(!on_border(food_cell(&game)));
}

#[test]
fn a_new_game_heads_somewhere() {
    let game = SnakeGridState::new();
    assert_eq!(game.head().position, 480);
    assert_eq!(game.last(), game.head());
    assert_eq!(count(&game, FOOD), 1);
}

#[test]
fn the_snake_waits_for_its_clock() {
    let mut game = SnakeGridState::started(Direction::Right);
    let mut context = context();
    assert_eq!(game.tick(&mut context, 49_999), Tick::Waiting);
    assert_eq!(game.head().position, 480);
    assert!(matches!(game.tick(&mut context, 1), Tick::Moved | Tick::Ate { .. }));
    assert_eq!(game.head().position, 481);
}

#[test]
fn moving_keeps_the_length_and_frees_the_cell_behind() {
    let mut game = SnakeGridState::started(Direction::Up);
    let mut context = context();
    let food = food_cell(&game);
    if food == 480 - 31 {
        return;
    }
    assert_eq!(step(&mut game, &mut context), Tick::Moved);
    assert_eq!(game.head(), SnakePart { position: 449, direction: Direction::Up });
    assert_eq!(game.last(), SnakePart { position: 449, direction: Direction::Up });
    assert_eq!(game.cell(480), AIR);
    assert_eq!(game.cell(449), SNAKE);
    assert_eq!(count(&game, SNAKE), 1);
    assert_eq!(food_cell(&game), food);
    assert!(context.take_queued().is_empty());
}

#[test]
fn eating_grows_the_snake_and_places_new_food() {
    let mut game = SnakeGridState::started(Direction::Right);
    let mut context = context();
    for round in 1..=4usize {
        let food = food_cell(&game);
        let outcome = eat(&mut game, &mut context);
        let placed = match outcome {
            Tick::Ate { food } => food,
            other => panic!("the snake was steered to the food, not to {:?}", other),
        };
        assert_eq!(game.head().position as usize, food);
        assert_eq!(count(&game, SNAKE), 1 + round);
        assert_eq!(count(&game, FOOD), 1);
        let placed = placed.unwrap() as usize;
        assert_eq!(food_cell(&game), placed);
        assert_ne!(placed, food);
        assert_eq!(context.take_queued().last().map(|name| name.as_str()), Some("eat"));
    }
}

#[test]
fn the_last_cell_stays_while_the_snake_eats() {
    let mut game = SnakeGridState::started(Direction::Right);
    let mut context = context();
    loop {
        let head = game.head();
        let last = game.last();
        let food = food_cell(&game);
        let before = count(&game, SNAKE);
        let ahead = match head.direction {
            Direction::Right => head.position as usize + 1,
            _ => unreachable!(),
        };
        if ahead % 31 == 30 {
            return;
        }
        let outcome = step(&mut game, &mut context);
        if ahead == food {
            assert!(matches!(outcome, Tick::Ate { food: Some(_) }));
            assert_eq!(game.last(), last);
            assert_eq!(count(&game, SNAKE), before + 1);
            return;
        }
        assert_eq!(outcome, Tick::Moved);
    }
}

#[test]
fn running_into_the_wall_ends_the_game_once() {
    let mut game = SnakeGridState::started(Direction::Up);
    let mut context = context();
    let mut died = 0;
    for _ in 0..40 {
        if step(&mut game, &mut context) == Tick::Died {
            died += 1;
        }
    }
    assert_eq!(died, 1);
    assert!(!game.is_running());
    assert_eq!(game.head().position, 480 - 14 * 31);
    assert!(game.can_turn());
    let sounds = context.take_queued();
    assert_eq!(sounds.iter().filter(|name| name.as_str() == "die").count(), 1);
    assert_eq!(game.tick(&mut context, u64::MAX), Tick::Waiting);
    game.on_event(&mut context, &key(Key::Left));
    assert_eq!(game.head().direction, Direction::Up);
    assert!(context.take_queued().is_empty());
}

#[test]
fn running_into_itself_ends_the_game() {
    let mut game = SnakeGridState::started(Direction::Right);
    let mut context = context();
    for _ in 0..4 {
        assert!(matches!(eat(&mut game, &mut context), Tick::Ate { .. }));
    }
    let mut outcome = Tick::Waiting;
    for turn in 0..3 {
        let next = match game.head().direction {
            Direction::Up => Key::D,
            Direction::Right => Key::Down,
            Direction::Down => Key::A,
            Direction::Left => Key::Up,
        };
        game.on_event(&mut context, &key(next));
        outcome = step(&mut game, &mut context);
        if turn < 2 && matches!(outcome, Tick::Died) {
            return;
        }
    }
    assert_eq!(outcome, Tick::Died);
    assert!(!game.is_running());
    assert!(count(&game, SNAKE) >= 5);
}

#[test]
fn a_turn_is_noted_and_asks_for_its_sound() {
    let mut game = SnakeGridState::started(Direction::Right);
    let mut context = context();
    game.on_event(&mut context, &key(Key::W));
    assert_eq!(game.head(), SnakePart { position: 480, direction: Direction::Up });
    assert_eq!(game.joint_count(), 1);
    assert!(!game.can_turn());
    assert_eq!(context.take_queued(), vec!["turn".to_string()]);
}

#[test]
fn only_one_turn_is_accepted_between_two_steps() {
    let mut game = SnakeGridState::started(Direction::Right);
    let mut context = context();
    game.on_event(&mut context, &key(Key::Up));
    game.on_event(&mut context, &key(Key::Left));
    assert_eq!(game.head().direction, Direction::Up);
    assert_eq!(game.joint_count(), 1);
    assert_eq!(context.take_queued().len(), 1);
    step(&mut game, &mut context);
    assert!(game.can_turn());
    assert_eq!(game.head().position, 449);
    game.on_event(&mut context, &key(Key::A));
    assert_eq!(game.head().direction, Direction::Left);
}

#[test]
fn a_key_for_the_opposite_heading_is_refused() {
    let mut game = SnakeGridState::started(Direction::Right);
    let mut context = context();
    game.on_event(&mut context, &key(Key::Left));
    game.on_event(&mut context, &key(Key::A));
    assert_eq!(game.head(), SnakePart { position: 480, direction: Direction::Right });
    assert_eq!(game.joint_count(), 0);
    assert!(game.can_turn());
    assert!(context.take_queued().is_empty());
    game.on_event(&mut context, &key(Key::S));
    assert_eq!(game.head().direction, Direction::Down);
}

#[test]
fn other_events_change_nothing() {
    let mut game = SnakeGridState::started(Direction::Down);
    let mut context = context();
    game.on_event(&mut context, &key(Key::Down));
    game.on_event(&mut context, &key(Key::Other));
    game.on_event(&mut context, &Event::KeyDown(None));
    game.on_event(&mut context, &Event::Quit);
    game.on_event(&mut context, &Event::Other);
    assert_eq!(game.head(), SnakePart { position: 480, direction: Direction::Down });
    assert_eq!(game.joint_count(), 0);
    assert!(game.can_turn());
    assert!(context.take_queued().is_empty());
}

#[test]
fn the_last_cell_takes_the_turns_of_the_head() {
    let mut game = SnakeGridState::started(Direction::Right);
    let mut context = context();
    assert!(matches!(eat(&mut game, &mut context), Tick::Ate { .. }));
    let length = count(&game, SNAKE);
    assert_eq!(length, 2);
    if game.cell(cell_ahead(game.head().position, game.head().direction)) != AIR {
        return;
    }
    assert_eq!(step(&mut game, &mut context), Tick::Moved);
    assert_eq!(game.joint_count(), 0);
    assert_eq!(game.last().direction, game.head().direction);
    let start = game.head();
    let first = turn_right(start.direction);
    let row = start.position as usize / 31;
    let column = start.position as usize % 31;
    let ahead = cell_ahead(start.position, first);
    let beyond = cell_ahead(ahead as u16, first);
    if !(4..27).contains(&row) || !(4..27).contains(&column) {
        return;
    }
    if game.cell(ahead) != AIR || game.cell(beyond) != AIR {
        return;
    }
    game.on_event(&mut context, &key(key_for(first)));
    assert_eq!(game.joint_count(), 1);
    assert_eq!(game.last().direction, start.direction);
    assert_eq!(step(&mut game, &mut context), Tick::Moved);
    assert_eq!(game.head().position as usize, ahead);
    assert_eq!(game.last().position, start.position);
    assert_eq!(game.last().direction, start.direction);
    assert_eq!(game.joint_count(), 1);
    assert_eq!(step(&mut game, &mut context), Tick::Moved);
    assert_eq!(game.head().position as usize, beyond);
    assert_eq!(game.last().position as usize, ahead);
    assert_eq!(game.last().direction, first);
    assert_eq!(game.joint_count(), 0);
    assert_eq!(count(&game, SNAKE), 2);
    assert_eq!(game.cell(start.position as usize), AIR);
}

#[test]
fn keys_map_to_headings() {
    assert_eq!(heading(&key(Key::W)), Some(Direction::Up));
    assert_eq!(heading(&key(Key::Up)), Some(Direction::Up));
    assert_eq!(heading(&key(Key::D)), Some(Direction::Right));
    assert_eq!(heading(&key(Key::Right)), Some(Direction::Right));
    assert_eq!(heading(&key(Key::S)), Some(Direction::Down));
    assert_eq!(heading(&key(Key::Down)), Some(Direction::Down));
    assert_eq!(heading(&key(Key::A)), Some(Direction::Left));
    assert_eq!(heading(&key(Key::Left)), Some(Direction::Left));
    assert_eq!(heading(&key(Key::Other)), None);
    assert_eq!(heading(&Event::Quit), None);
}

#[test]
fn cells_have_their_colours() {
    assert_eq!(cell_color(AIR).argb, DARK_GRAY);
    assert_eq!(cell_color(WALL).argb, RED);
    assert_eq!(cell_color(SNAKE).argb, CYAN);
    assert_eq!(cell_color(FOOD).argb, GREEN);
}

#[test]
fn the_view_of_the_game_is_a_grid_of_the_board() {
    let game = SnakeGridState::started(Direction::Left);
    let grid = game.make(Box2D { position: (0, 0), size: (830, 900) });
    assert_eq!(grid.shape().dim, (31, 31));
    assert_eq!(grid.shape().gap, (8, 8));
    assert_eq!(grid.shape().size, (i32::MAX, 830));
    assert!(grid.shape().at_bottom);
    assert_eq!(grid.maker().data, game.cells());
    assert_eq!(game.cell(5000), WALL);
}

#[test]
fn the_place_drawn_at_the_start_fixes_the_food() {
    assert_eq!(food_cell(&SnakeGridState::started_with(Direction::Right, 0)), 32);
    assert_eq!(food_cell(&SnakeGridState::started_with(Direction::Right, 1)), 33);
    assert_eq!(food_cell(&SnakeGridState::started_with(Direction::Right, 29)), 63);
    assert_eq!(food_cell(&SnakeGridState::started_with(Direction::Right, 419)), 479);
    assert_eq!(food_cell(&SnakeGridState::started_with(Direction::Right, 420)), 928);
    assert_eq!(food_cell(&SnakeGridState::started_with(Direction::Right, 421)), 481);
    assert_eq!(food_cell(&SnakeGridState::started_with(Direction::Right, 839)), 927);
    let game = SnakeGridState::started_with(Direction::Left, 420);
    assert_eq!(game.free_count(), FREE_AT_START - 1);
    assert_eq!(game.head(), SnakePart { position: 480, direction: Direction::Left });
    assert_eq!(count(&game, FOOD), 1);
    assert_eq!(count(&game, SNAKE), 1);
    assert_eq!(INNER_CELLS, 841);
}

#[test]
fn the_place_drawn_on_eating_fixes_the_new_food() {
    let mut game = SnakeGridState::started_with(Direction::Right, 421);
    let mut context = Context::new(vec!["eat".to_string()]);
    assert!(game.food_is_due(STEP_INTERVAL));
    assert!(!game.food_is_due(STEP_INTERVAL - 1));
    assert_eq!(game.tick_sound(STEP_INTERVAL), Some("eat"));
    assert_eq!(game.tick_with(&mut context, STEP_INTERVAL, 0), Tick::Ate { food: Some(32) });
    assert_eq!(game.head().position, 481);
    assert_eq!(game.last().position, 480);
    let cells = game.cells();
    for cell in 0..CELLS {
        let wanted = match cell {
            480 | 481 => SNAKE,
            32 => FOOD,
            _ if on_border(cell) => WALL,
            _ => AIR,
        };
        assert_eq!(cells[cell], wanted);
    }
    assert_eq!(game.free_count(), 838);
    assert_eq!(context.take_queued(), vec!["eat".to_string()]);
}

#[test]
fn the_last_free_cell_gets_the_food_when_the_last_place_is_drawn() {
    let mut game = SnakeGridState::started_with(Direction::Right, 421);
    let mut context = Context::new(vec!["eat".to_string()]);
    let place = game.free_count() - 1;
    assert_eq!(game.tick_with(&mut context, STEP_INTERVAL, place), Tick::Ate { food: Some(926) });
}

#[test]
fn no_sound_is_needed_where_none_is_played() {
    let mut game = SnakeGridState::started_with(Direction::Up, 0);
    let mut silent = Context::new(vec![]);
    assert_eq!(game.tick_sound(1), None);
    assert_eq!(game.tick(&mut silent, 1), Tick::Waiting);
    assert_eq!(game.event_sound(&key(Key::Down)), None);
    assert_eq!(game.event_sound(&key(Key::Up)), None);
    assert_eq!(game.event_sound(&Event::Quit), None);
    game.on_event(&mut silent, &key(Key::Down));
    game.on_event(&mut silent, &Event::Quit);
    assert_eq!(game.tick_sound(STEP_INTERVAL), None);
    assert_eq!(game.tick(&mut silent, STEP_INTERVAL), Tick::Moved);
    assert_eq!(game.event_sound(&key(Key::A)), Some("turn"));
    assert!(silent.take_queued().is_empty());
}

#[test]
fn dying_needs_only_its_own_sound() {
    let mut game = SnakeGridState::started_with(Direction::Up, 839);
    let mut context = Context::new(vec!["die".to_string()]);
    for _ in 0..14 {
        assert_eq!(game.tick_sound(STEP_INTERVAL), None);
        assert_eq!(game.tick(&mut context, STEP_INTERVAL), Tick::Moved);
    }
    assert_eq!(game.tick_sound(STEP_INTERVAL), Some("die"));
    assert_eq!(game.tick(&mut context, STEP_INTERVAL), Tick::Died);
    assert_eq!(context.take_queued(), vec!["die".to_string()]);
    let mut silent = Context::new(vec![]);
    assert_eq!(game.tick_sound(u64::MAX), None);
    assert_eq!(game.tick(&mut silent, u64::MAX), Tick::Waiting);
    assert_eq!(game.event_sound(&key(Key::A)), None);
    game.on_event(&mut silent, &key(Key::A));
    assert_eq!(game.head().direction, Direction::Up);
    assert!(silent.take_queued().is_empty());
}
