use super::snake::{Snake, SnakePart};
use crate::common::clock::{advanced, ClockView};
use crate::common::random::random_below;
use crate::common::sparse_set::{added, lemma_collected_distinct, removed, swap_removed};
use crate::common::{Clock, SparseSet};
use crate::context::Context;
use crate::engine::stage;
use crate::models::color::{CYAN, DARK_GRAY, GREEN, RED};
use crate::models::{Box2D, Color, Direction, Event, Key};
use crate::canvas::{Canvas, DrawOp};
use crate::nodes::grid::{first_of, second_of};
use crate::nodes::grid_node::{cell_painted, cells_painted, grid_painted};
use crate::nodes::{BoxNode, CellMaker, Grid, GridNode, GridShape, Node};
use std::collections::VecDeque;
use vstd::prelude::*;

verus! {

/// The board has this many rows, and as many columns.
pub const DIM: u16 = 31;

/// The number of cells of the board.
pub const CELLS: usize = 961;

/// The cell in the middle, where the snake starts.
pub const CENTRE: u16 = 480;

/// A free cell.
pub const AIR: u8 = 0;

/// A cell of the wall round the board.
pub const WALL: u8 = 1;

/// A cell the snake lies on.
pub const SNAKE: u8 = 2;

/// The cell with the food.
pub const FOOD: u8 = 3;

/// The microseconds between two steps of the snake.
pub const STEP_INTERVAL: u64 = 50_000;

/// The number of cells inside the wall.
pub const INNER_CELLS: usize = 841;

/// The number of free cells at the start, before food is placed: the cells
/// inside the wall but for the one the snake starts on.
pub const FREE_AT_START: usize = 840;

/// The inner cell with number `i`, counting row by row from the top left.
pub open spec fn inner_cell(i: int) -> int {
    (i / 29 + 1) * 31 + (i % 29 + 1)
}

/// The free cell at place `i` of the free list at the start: the inner cells
/// in their order, where the last of them, cell 928, has taken the place of
/// the centre.
pub open spec fn free_at_start(i: int) -> u16 {
    if i == 420 {
        928
    } else {
        inner_cell(i) as u16
    }
}

/// Whether cell `p` lies on the rim of the board.
pub open spec fn is_border(p: int) -> bool {
    p / 31 == 0 || p / 31 == 30 || p % 31 == 0 || p % 31 == 30
}

/// The cell next to `p` in the direction `d`.
pub open spec fn next_cell(p: int, d: Direction) -> int {
    match d {
        Direction::Up => p - 31,
        Direction::Right => p + 1,
        Direction::Down => p + 31,
        Direction::Left => p - 1,
    }
}

/// The heading that a key asks for, if it asks for one.
pub open spec fn heading_of(event: Event) -> Option<Direction> {
    match event {
        Event::KeyDown(Some(Key::W)) | Event::KeyDown(Some(Key::Up)) => Some(Direction::Up),
        Event::KeyDown(Some(Key::D)) | Event::KeyDown(Some(Key::Right)) => Some(Direction::Right),
        Event::KeyDown(Some(Key::S)) | Event::KeyDown(Some(Key::Down)) => Some(Direction::Down),
        Event::KeyDown(Some(Key::A)) | Event::KeyDown(Some(Key::Left)) => Some(Direction::Left),
        _ => None,
    }
}

/// The board at the start: wall on the rim, the snake in the middle, air
/// everywhere else.
pub open spec fn first_cell(p: int) -> u8 {
    if is_border(p) {
        WALL
    } else if p == CENTRE {
        SNAKE
    } else {
        AIR
    }
}

/// What a game is, as plain values.
pub struct SnakeGridView {
    pub head: SnakePart,
    pub last: SnakePart,
    /// The turns the last cell has still to take, oldest first.
    pub joints: Seq<SnakePart>,
    /// Whether a change of heading is still accepted before the next step.
    pub can_turn: bool,
    pub clock: ClockView,
    /// What lies on each cell, row by row.
    pub cells: Seq<u8>,
    /// The free cells, in the order of the free list.
    pub free: Seq<u16>,
}

/// What one call of `tick` did.
#[derive(Copy, Clone, Debug, PartialEq, Eq, Structural)]
pub enum Tick {
    /// The time for the next step has not come, or the game is over.
    Waiting,
    /// The snake moved by one cell.
    Moved,
    /// The snake ate and grew by one cell. New food lies on `food`, or
    /// nowhere if no cell was free.
    Ate { food: Option<u16> },
    /// The snake ran into the wall or into itself. The game is over.
    Died,
}

impl SnakeGridView {
    /// The cell the head moves to at the next step.
    pub open spec fn target(self) -> int {
        next_cell(self.head.position as int, self.head.direction)
    }

    /// Whether a key that asks for `direction` changes the heading: the
    /// game runs, no change was accepted since the last step, and the
    /// heading asked for is across the present one.
    pub open spec fn accepts(self, direction: Direction) -> bool {
        &&& self.clock.running
        &&& self.can_turn
        &&& direction != self.head.direction
        &&& direction != self.head.direction.reversed()
    }

    /// The game after the heading changed to `direction`: the turn is noted
    /// at the head's cell for the last cell to take later.
    pub open spec fn turned(self, direction: Direction) -> SnakeGridView {
        SnakeGridView {
            head: SnakePart { position: self.head.position, direction },
            joints: self.joints.push(
                SnakePart { position: self.head.position, direction },
            ),
            can_turn: false,
            ..self
        }
    }

    /// The heading the last cell leaves its cell with: that of the oldest
    /// turn where the turn was made on this cell, else its own.
    pub open spec fn last_heading(self) -> Direction {
        if self.joints.len() > 0 && self.joints[0].position == self.last.position {
            self.joints[0].direction
        } else {
            self.last.direction
        }
    }

    /// The game after the last cell moved on by one: its cell is free and
    /// joins the free list, and a turn made there is taken.
    pub open spec fn retracted(self) -> SnakeGridView {
        SnakeGridView {
            last: SnakePart {
                position: next_cell(self.last.position as int, self.last_heading()) as u16,
                direction: self.last_heading(),
            },
            joints: if self.joints.len() > 0 && self.joints[0].position == self.last.position {
                self.joints.drop_first()
            } else {
                self.joints
            },
            cells: self.cells.update(self.last.position as int, AIR),
            free: added(self.free, self.last.position),
            ..self
        }
    }

    /// The game after the head moved on by one: the cell it moved to is the
    /// snake's, and leaves the free list.
    pub open spec fn advanced_head(self) -> SnakeGridView {
        SnakeGridView {
            head: SnakePart { position: self.target() as u16, direction: self.head.direction },
            cells: self.cells.update(self.target(), SNAKE),
            free: removed(self.free, self.target() as u16),
            ..self
        }
    }

    /// The game with food on the free cell at place `place` of the free
    /// list, which the cell leaves; or as it is where no cell is free.
    pub open spec fn fed(self, place: int) -> SnakeGridView {
        if self.free.len() == 0 {
            self
        } else {
            SnakeGridView {
                cells: self.cells.update(self.free[place] as int, FOOD),
                free: swap_removed(self.free, place),
                ..self
            }
        }
    }

    /// The cell that `fed` puts the food on, if a cell is free.
    pub open spec fn food_at(self, place: int) -> Option<u16> {
        if self.free.len() == 0 {
            None
        } else {
            Some(self.free[place])
        }
    }

    /// Whether a step is due after `dt` more microseconds.
    pub open spec fn steps_after(self, dt: nat) -> bool {
        advanced(self.clock, dt).1
    }

    /// Whether, after `dt` more microseconds, the snake eats and food is
    /// placed anew: a step is due, food lies before the head, and a cell is
    /// free.
    pub open spec fn food_is_due(self, dt: nat) -> bool {
        self.steps_after(dt) && self.cells[self.target()] == FOOD && self.free.len() > 0
    }

    /// The sound that letting `dt` microseconds pass asks for: `die` where
    /// a step is due and wall or snake lies before the head, `eat` where food
    /// lies there, none otherwise.
    pub open spec fn tick_sound(self, dt: nat) -> Option<Seq<char>> {
        let ahead = self.cells[self.target()];
        if !self.steps_after(dt) {
            None
        } else if ahead == WALL || ahead == SNAKE {
            Some("die"@)
        } else if ahead == FOOD {
            Some("eat"@)
        } else {
            None
        }
    }

    /// The sound that `event` asks for: `turn` where it is a key for a
    /// heading that is accepted, none otherwise.
    pub open spec fn event_sound(self, event: Event) -> Option<Seq<char>> {
        match heading_of(event) {
            Some(direction) => if self.accepts(direction) {
                Some("turn"@)
            } else {
                None
            },
            None => None,
        }
    }

    /// The game after `event`: a key for a heading that is accepted turns
    /// the head; every other event changes nothing.
    pub open spec fn after_event(self, event: Event) -> SnakeGridView {
        match heading_of(event) {
            Some(direction) => if self.accepts(direction) {
                self.turned(direction)
            } else {
                self
            },
            None => self,
        }
    }

    /// The game after `dt` more microseconds, and what `tick` answers, where
    /// `place` is the place in the free list that was drawn for new food.
    ///
    /// Where no step is due, only the clock has counted. Where one is due, a
    /// change of heading is accepted again; then, by what lies before the
    /// head: on wall or snake the game is over and nothing else changes; on
    /// food the head moves there, the last cell stays, and food is placed on
    /// the free cell at `place`; else the last cell moves on and the head
    /// moves.
    pub open spec fn ticked(self, dt: nat, place: int) -> (SnakeGridView, Tick) {
        let clock = advanced(self.clock, dt).0;
        let ready = SnakeGridView { can_turn: true, clock, ..self };
        let ahead = self.cells[self.target()];
        if !self.steps_after(dt) {
            (SnakeGridView { clock, ..self }, Tick::Waiting)
        } else if ahead == WALL || ahead == SNAKE {
            (
                SnakeGridView { clock: ClockView { running: false, ..clock }, ..ready },
                Tick::Died,
            )
        } else if ahead == FOOD {
            (
                ready.advanced_head().fed(place),
                Tick::Ate { food: ready.advanced_head().food_at(place) },
            )
        } else {
            (ready.retracted().advanced_head(), Tick::Moved)
        }
    }

    /// The game at its start with the snake heading for `direction`, before
    /// food is placed: wall on the rim, the snake on the centre, and every
    /// other cell free.
    pub open spec fn fresh(direction: Direction) -> SnakeGridView {
        SnakeGridView {
            head: SnakePart { position: CENTRE, direction },
            last: SnakePart { position: CENTRE, direction },
            joints: Seq::empty(),
            can_turn: true,
            clock: ClockView { interval: STEP_INTERVAL as nat, elapsed: 0, running: true },
            cells: Seq::new(CELLS as nat, |p: int| first_cell(p)),
            free: Seq::new(FREE_AT_START as nat, |i: int| free_at_start(i)),
        }
    }
}

/// Whether the cells of `body` from place `from` on lead to the head when
/// one sets out with the heading `heading` and takes the turns of `joints`
/// in order, each on its cell. At the head, either no turn is left and the
/// heading is the head's, or, where a turn is `pending`, the one turn left
/// was made on the head's cell and gives the head's heading.
pub open spec fn leads_to_head(
    body: Seq<u16>,
    from: int,
    heading: Direction,
    joints: Seq<SnakePart>,
    head: SnakePart,
    pending: bool,
) -> bool
    decreases body.len() - from,
{
    if from < 0 || from >= body.len() {
        false
    } else if from == body.len() - 1 {
        &&& body[from] == head.position
        &&& if pending {
            joints.len() == 1 && joints[0] == head
        } else {
            joints.len() == 0 && heading == head.direction
        }
    } else {
        let turns = joints.len() > 0 && joints[0].position == body[from];
        let onward = if turns {
            joints[0].direction
        } else {
            heading
        };
        let rest = if turns {
            joints.drop_first()
        } else {
            joints
        };
        &&& body[from + 1] == next_cell(body[from] as int, onward)
        &&& leads_to_head(body, from + 1, onward, rest, head, pending)
    }
}

/// A turn made on the head's cell joins the turns to take.
proof fn lemma_turn_is_noted(
    body: Seq<u16>,
    from: int,
    heading: Direction,
    joints: Seq<SnakePart>,
    head: SnakePart,
    direction: Direction,
)
    requires
        body.no_duplicates(),
        leads_to_head(body, from, heading, joints, head, false),
    ensures
        leads_to_head(
            body,
            from,
            heading,
            joints.push(SnakePart { position: head.position, direction }),
            SnakePart { position: head.position, direction },
            true,
        ),
    decreases body.len() - from,
{
    let noted = SnakePart { position: head.position, direction };
    let n = body.len() as int;
    if from < n - 1 {
        let turns = joints.len() > 0 && joints[0].position == body[from];
        let onward = if turns {
            joints[0].direction
        } else {
            heading
        };
        let rest = if turns {
            joints.drop_first()
        } else {
            joints
        };
        lemma_turn_is_noted(body, from + 1, onward, rest, head, direction);
        lemma_ends_at_head(body, from, heading, joints, head, false);
        assert(body[n - 1] == head.position);
        assert(body[from] != body[n - 1]);
        if turns {
            assert(joints.push(noted).drop_first() == joints.drop_first().push(noted));
        } else {
            assert(joints.push(noted)[0].position != body[from]);
        }
    }
}

/// The last cell of a body that leads to the head is the head's cell.
proof fn lemma_ends_at_head(
    body: Seq<u16>,
    from: int,
    heading: Direction,
    joints: Seq<SnakePart>,
    head: SnakePart,
    pending: bool,
)
    requires
        leads_to_head(body, from, heading, joints, head, pending),
    ensures
        0 <= from < body.len(),
        body[body.len() - 1] == head.position,
    decreases body.len() - from,
{
    if from < body.len() - 1 {
        let turns = joints.len() > 0 && joints[0].position == body[from];
        let onward = if turns {
            joints[0].direction
        } else {
            heading
        };
        let rest = if turns {
            joints.drop_first()
        } else {
            joints
        };
        lemma_ends_at_head(body, from + 1, onward, rest, head, pending);
    }
}

/// When the head moves on by one cell, the body with that cell at its end
/// leads to the new head, and no turn is pending.
proof fn lemma_head_moves_on(
    body: Seq<u16>,
    from: int,
    heading: Direction,
    joints: Seq<SnakePart>,
    head: SnakePart,
    pending: bool,
    target: u16,
)
    requires
        leads_to_head(body, from, heading, joints, head, pending),
        target == next_cell(head.position as int, head.direction),
    ensures
        leads_to_head(
            body.push(target),
            from,
            heading,
            joints,
            SnakePart { position: target, direction: head.direction },
            false,
        ),
    decreases body.len() - from,
{
    let longer = body.push(target);
    let moved = SnakePart { position: target, direction: head.direction };
    let n = body.len() as int;
    if from < n - 1 {
        let turns = joints.len() > 0 && joints[0].position == body[from];
        let onward = if turns {
            joints[0].direction
        } else {
            heading
        };
        let rest = if turns {
            joints.drop_first()
        } else {
            joints
        };
        lemma_head_moves_on(body, from + 1, onward, rest, head, pending, target);
        assert(longer[from] == body[from]);
        assert(longer[from + 1] == body[from + 1]);
    } else {
        assert(longer[from] == body[from]);
        assert(longer[from + 1] == target);
        if pending {
            assert(joints.drop_first().len() == 0);
        }
        assert(leads_to_head(
            longer,
            from + 1,
            head.direction,
            Seq::<SnakePart>::empty(),
            moved,
            false,
        ));
        if pending {
            assert(joints.drop_first() == Seq::<SnakePart>::empty());
        } else {
            assert(joints == Seq::<SnakePart>::empty());
        }
    }
}

/// What leads to the head from place `from + 1` of a body leads to it from
/// place `from` of the body without its first cell.
proof fn lemma_body_without_first(
    body: Seq<u16>,
    from: int,
    heading: Direction,
    joints: Seq<SnakePart>,
    head: SnakePart,
    pending: bool,
)
    requires
        from >= 0,
        leads_to_head(body, from + 1, heading, joints, head, pending),
    ensures
        leads_to_head(body.drop_first(), from, heading, joints, head, pending),
    decreases body.len() - from,
{
    let shorter = body.drop_first();
    assert(shorter[from] == body[from + 1]);
    if from + 1 < body.len() - 1 {
        let turns = joints.len() > 0 && joints[0].position == body[from + 1];
        let onward = if turns {
            joints[0].direction
        } else {
            heading
        };
        let rest = if turns {
            joints.drop_first()
        } else {
            joints
        };
        lemma_body_without_first(body, from + 1, onward, rest, head, pending);
        assert(shorter[from + 1] == body[from + 2]);
    }
}

/// How often `kind` lies on the first `upto` cells of `cells`.
pub open spec fn count_of(cells: Seq<u8>, kind: u8, upto: int) -> nat
    decreases upto,
{
    if upto <= 0 {
        0
    } else {
        count_of(cells, kind, upto - 1) + if cells[upto - 1] == kind {
            1nat
        } else {
            0nat
        }
    }
}

/// The heading that a key asks for, if it asks for one.
pub fn heading(event: &Event) -> (direction: Option<Direction>)
    ensures
        direction == heading_of(*event),
{
    match event {
        Event::KeyDown(Some(key)) => match key {
            Key::W | Key::Up => Some(Direction::Up),
            Key::D | Key::Right => Some(Direction::Right),
            Key::S | Key::Down => Some(Direction::Down),
            Key::A | Key::Left => Some(Direction::Left),
            Key::Other => None,
        },
        _ => None,
    }
}

/// Whether cell `cell` lies on the rim of the board.
pub fn on_border(cell: usize) -> (rim: bool)
    ensures
        rim == is_border(cell as int),
{
    let row = cell / 31;
    let column = cell % 31;
    row == 0 || row == 30 || column == 0 || column == 30
}

/// The colour of a cell by what lies on it: dark gray for air, red for wall,
/// cyan for the snake, green for food and for anything else.
pub open spec fn color_of(kind: u8) -> u32 {
    if kind == AIR {
        DARK_GRAY
    } else if kind == WALL {
        RED
    } else if kind == SNAKE {
        CYAN
    } else {
        GREEN
    }
}

/// The colour of a cell by what lies on it.
pub fn cell_color(kind: u8) -> (color: Color)
    ensures
        color.argb == color_of(kind),
{
    if kind == AIR {
        Color { argb: DARK_GRAY }
    } else if kind == WALL {
        Color { argb: RED }
    } else if kind == SNAKE {
        Color { argb: CYAN }
    } else {
        Color { argb: GREEN }
    }
}

/// The game of snake: the board, the snake on it, and the clock that paces
/// its steps. The game is over once the clock is paused.
pub struct SnakeGridState {
    snake: Snake,
    change_snake_direction: bool,
    clock: Clock,
    data: Vec<u8>,
    air_indices: SparseSet<u16>,
    /// The cells the snake lies on, from its last cell to its head.
    body: Ghost<Seq<u16>>,
    /// Whether the head turned since it last moved.
    pending: Ghost<bool>,
}

impl View for SnakeGridState {
    type V = SnakeGridView;

    closed spec fn view(&self) -> SnakeGridView {
        SnakeGridView {
            head: self.snake.head,
            last: self.snake.last,
            joints: self.snake.joint_queue@,
            can_turn: self.change_snake_direction,
            clock: self.clock@,
            cells: self.data@,
            free: self.air_indices@,
        }
    }
}

impl SnakeGridState {
    /// The board is whole, with wall all round; the free-list holds the
    /// cells of air and no others; the snake lies on cells marked as snake,
    /// no cell twice, in one line from its last cell to its head, and the
    /// noted turns are those the last cell has still to take.
    pub closed spec fn wf(&self) -> bool {
        &&& self.clock.wf()
        &&& self.data@.len() == CELLS
        &&& forall|p: int| 0 <= p < CELLS && is_border(p) ==> #[trigger] self.data@[p] == WALL
        &&& self.air_indices.wf()
        &&& forall|p: u16| #[trigger]
            self.air_indices@.contains(p) <==> (p < CELLS && self.data@[p as int] == AIR)
        &&& self.body@.len() >= 1
        &&& self.body@.no_duplicates()
        &&& self.body@[0] == self.snake.last.position
        &&& forall|i: int|
            0 <= i < self.body@.len() ==> (#[trigger] self.body@[i]) < CELLS && self.data@[self.body@[i] as int]
                == SNAKE
        &&& leads_to_head(
            self.body@,
            0,
            self.snake.last.direction,
            self.snake.joint_queue@,
            self.snake.head,
            self.pending@,
        )
        &&& (self.change_snake_direction && self.clock@.running) ==> !self.pending@
    }

    /// What a well-formed game shows of itself: the board is whole with
    /// wall all round, and the head and the last cell of the snake lie
    /// inside it, on cells marked as snake.
    pub proof fn lemma_wf_shows(&self)
        requires
            self.wf(),
        ensures
            self@.clock.interval > 0,
            self@.cells.len() == CELLS,
            forall|p: int| 0 <= p < CELLS && is_border(p) ==> #[trigger] self@.cells[p] == WALL,
            self@.head.position < CELLS,
            !is_border(self@.head.position as int),
            self@.cells[self@.head.position as int] == SNAKE,
            self@.last.position < CELLS,
            self@.cells[self@.last.position as int] == SNAKE,
            0 <= self@.target() < CELLS,
            self@.free.no_duplicates(),
            forall|p: u16| #[trigger]
                self@.free.contains(p) <==> (p < CELLS && self@.cells[p as int] == AIR),
    {
        self.air_indices.lemma_distinct();
        lemma_ends_at_head(
            self.body@,
            0,
            self.snake.last.direction,
            self.snake.joint_queue@,
            self.snake.head,
            self.pending@,
        );
        let n = self.body@.len() as int;
        assert(self.body@[n - 1] < CELLS);
        assert(self.body@[0] < CELLS);
    }

    /// The game at its start with the snake heading for `direction`: one
    /// cell long in the middle of the board, with food on the free cell at
    /// place `place` of the free list.
    pub fn started_with(direction: Direction, place: usize) -> (game: SnakeGridState)
        requires
            place < FREE_AT_START,
        ensures
            game.wf(),
            game@ == SnakeGridView::fresh(direction).fed(place as int),
    {
        let mut data: Vec<u8> = Vec::new();
        let mut cell: usize = 0;
        while cell < CELLS
            invariant
                cell <= CELLS,
                data@.len() == cell,
                forall|p: int| 0 <= p < cell ==> #[trigger] data@[p] == first_cell(p),
            decreases CELLS - cell,
        {
            if on_border(cell) {
                data.push(WALL);
            } else if cell == CENTRE as usize {
                data.push(SNAKE);
            } else {
                data.push(AIR);
            }
            cell += 1;
        }
        let mut inner: Vec<u16> = Vec::new();
        let mut i: usize = 0;
        while i < INNER_CELLS
            invariant
                i <= INNER_CELLS,
                inner@.len() == i,
                forall|j: int| 0 <= j < i ==> #[trigger] inner@[j] == inner_cell(j),
            decreases INNER_CELLS - i,
        {
            inner.push(((i / 29 + 1) * 31 + (i % 29 + 1)) as u16);
            i += 1;
        }
        let ghost cells_in = inner@;
        proof {
            assert forall|a: int, b: int|
                0 <= a < cells_in.len() && 0 <= b < cells_in.len() && a != b implies cells_in[a]
                != cells_in[b] by {
                assert(cells_in[a] == inner_cell(a));
                assert(cells_in[b] == inner_cell(b));
                assert(inner_cell(a) / 31 == a / 29 + 1 && inner_cell(a) % 31 == a % 29 + 1);
                assert(inner_cell(b) / 31 == b / 29 + 1 && inner_cell(b) % 31 == b % 29 + 1);
            }
            lemma_collected_distinct(cells_in);
            assert(cells_in[420] == CENTRE);
            assert(cells_in.contains(CENTRE));
            assert(cells_in.index_of(CENTRE) == 420);
            assert(cells_in.last() == 928);
        }
        let mut air_indices: SparseSet<u16> = SparseSet::from_iter(inner);
        air_indices.remove(CENTRE);
        let ghost free = Seq::new(FREE_AT_START as nat, |i: int| free_at_start(i));
        proof {
            assert(air_indices@ =~= free) by {
                assert forall|i: int| 0 <= i < FREE_AT_START implies air_indices@[i]
                    == free_at_start(i) by {
                    if i != 420 {
                        assert(cells_in[i] == inner_cell(i));
                    }
                }
            }
            assert forall|p: u16| #[trigger]
                air_indices@.contains(p) <==> (p < CELLS && data@[p as int] == AIR) by {
                if air_indices@.contains(p) {
                    let i = air_indices@.index_of(p);
                    assert(free[i] == p);
                    if i != 420 {
                        assert(inner_cell(i) / 31 == i / 29 + 1 && inner_cell(i) % 31 == i % 29
                            + 1);
                        assert(p != CENTRE);
                    }
                    assert(data@[p as int] == first_cell(p as int));
                }
                if p < CELLS && data@[p as int] == AIR {
                    assert(first_cell(p as int) == AIR);
                    let i = (p / 31 - 1) * 29 + (p % 31 - 1);
                    assert(0 <= i <= 840);
                    if i == 840 {
                        assert(p == 928);
                        assert(free[420] == p);
                    } else {
                        assert(i / 29 == p / 31 - 1 && i % 29 == p % 31 - 1);
                        assert(inner_cell(i) == p);
                        assert(free[i] == p);
                    }
                }
            }
        }
        let head = SnakePart { position: CENTRE, direction };
        let body: Ghost<Seq<u16>> = Ghost(Seq::empty().push(CENTRE));
        let pending: Ghost<bool> = Ghost(false);
        let mut game = SnakeGridState {
            snake: Snake { head, joint_queue: VecDeque::new(), last: head },
            change_snake_direction: true,
            clock: Clock::new(Some(STEP_INTERVAL)),
            data,
            air_indices,
            body,
            pending,
        };
        proof {
            assert(game.body@[0] == CENTRE);
            assert(first_cell(CENTRE as int) == SNAKE);
            assert(game.data@ == Seq::new(CELLS as nat, |p: int| first_cell(p)));
            assert(game.wf());
            assert(game@ == SnakeGridView::fresh(direction));
        }
        let _ = game.feed(place);
        game
    }

    /// The game at its start with the snake heading for `direction`, with
    /// food on a free cell picked at random.
    pub fn started(direction: Direction) -> (game: SnakeGridState)
        ensures
            game.wf(),
            exists|place: int|
                {
                    &&& #[trigger] stage(place)
                    &&& 0 <= place < FREE_AT_START
                    &&& game@ == SnakeGridView::fresh(direction).fed(place)
                },
    {
        let place = random_below(FREE_AT_START);
        let game = SnakeGridState::started_with(direction, place);
        assert(stage(place as int));
        game
    }

    /// The game at its start, with the snake heading for a direction picked
    /// at random and food on a free cell picked at random.
    pub fn new() -> (game: SnakeGridState)
        ensures
            game.wf(),
            exists|place: int|
                {
                    &&& #[trigger] stage(place)
                    &&& 0 <= place < FREE_AT_START
                    &&& game@ == SnakeGridView::fresh(game@.head.direction).fed(place)
                },
    {
        let direction = match Direction::from_index(random_below(4)) {
            Some(direction) => direction,
            None => Direction::Up,
        };
        let place = random_below(FREE_AT_START);
        let game = SnakeGridState::started_with(direction, place);
        assert(stage(place as int));
        game
    }

    /// Puts food on the free cell at place `place` of the free list, and
    /// says on which; where no cell is free, nothing changes.
    fn feed(&mut self, place: usize) -> (food: Option<u16>)
        requires
            old(self).wf(),
            old(self)@.free.len() > 0 ==> place < old(self)@.free.len(),
        ensures
            final(self).wf(),
            final(self)@ == old(self)@.fed(place as int),
            food == old(self)@.food_at(place as int),
    {
        if self.air_indices.is_empty() {
            return None;
        }
        proof {
            self.air_indices.lemma_distinct();
        }
        let ghost free = self.air_indices@;
        let cell = self.air_indices.remove_at(place);
        proof {
            assert(free.contains(cell));
            assert(free.index_of(cell) == place);
            crate::common::sparse_set::lemma_removed(free, cell);
            assert(self.air_indices@ == removed(free, cell));
        }
        self.data.set(cell as usize, FOOD);
        proof {
            assert forall|p: u16| #[trigger]
                self.air_indices@.contains(p) <==> (p < CELLS && self.data@[p as int] == AIR) by {
                assert(old(self).air_indices@.contains(p) <==> (p < CELLS && old(self).data@[p as int]
                    == AIR));
                assert(self.air_indices@.contains(p) <==> (old(self).air_indices@.contains(p) && p
                    != cell));
            }
            assert forall|i: int| 0 <= i < self.body@.len() implies (#[trigger] self.body@[i])
                < CELLS && self.data@[self.body@[i] as int] == SNAKE by {
                assert(old(self).data@[self.body@[i] as int] == SNAKE);
            }
            assert forall|p: int| 0 <= p < CELLS && is_border(p) implies #[trigger] self.data@[p]
                == WALL by {
                assert(old(self).data@[p] == WALL);
            }
        }
        Some(cell)
    }

    /// How many cells are free.
    pub fn free_count(&self) -> (n: usize)
        ensures
            n == self@.free.len(),
    {
        self.air_indices.len()
    }

    /// The cell before the head, and what lies on it.
    fn look_ahead(&self) -> (seen: (u16, u8))
        requires
            self.wf(),
        ensures
            seen.0 == self@.target(),
            seen.0 < CELLS,
            seen.1 == self@.cells[self@.target()],
    {
        proof {
            self.lemma_wf_shows();
        }
        let head = self.snake.head;
        let target: u16 = match head.direction {
            Direction::Up => head.position - DIM,
            Direction::Right => head.position + 1,
            Direction::Down => head.position + DIM,
            Direction::Left => head.position - 1,
        };
        (target, self.data[target as usize])
    }

    /// Whether, after `dt` more microseconds, the snake eats and food is
    /// placed anew.
    pub fn food_is_due(&self, dt: u64) -> (due: bool)
        requires
            self.wf(),
        ensures
            due == self@.food_is_due(dt as nat),
    {
        let (_, ahead) = self.look_ahead();
        self.clock.fires_after(dt) && ahead == FOOD && self.air_indices.len() > 0
    }

    /// The sound that `tick` would ask for after `dt` more microseconds, if
    /// any.
    pub fn tick_sound(&self, dt: u64) -> (sound: Option<&'static str>)
        requires
            self.wf(),
        ensures
            match sound {
                Some(name) => self@.tick_sound(dt as nat) == Some(name@),
                None => self@.tick_sound(dt as nat) is None,
            },
    {
        let (_, ahead) = self.look_ahead();
        if !self.clock.fires_after(dt) {
            None
        } else if ahead == WALL || ahead == SNAKE {
            Some("die")
        } else if ahead == FOOD {
            Some("eat")
        } else {
            None
        }
    }

    /// The sound that `on_event` would ask for on `event`, if any.
    pub fn event_sound(&self, event: &Event) -> (sound: Option<&'static str>)
        ensures
            match sound {
                Some(name) => self@.event_sound(*event) == Some(name@),
                None => self@.event_sound(*event) is None,
            },
    {
        if !self.clock.is_running() || !self.change_snake_direction {
            return None;
        }
        match heading(event) {
            Some(direction) => {
                let now = self.snake.head.direction;
                if direction == now || direction == now.opposite() {
                    None
                } else {
                    Some("turn")
                }
            },
            None => None,
        }
    }

    /// Handles an input event. A key for a heading across the present one
    /// turns the head, notes the turn for the last cell to take later, and
    /// asks for the sound `turn`, once between two steps and while the game
    /// runs. Every other event changes nothing.
    pub fn on_event(&mut self, context: &mut Context, event: &Event)
        requires
            old(self).wf(),
            old(self)@.event_sound(*event) matches Some(name) ==> old(context).loaded().contains(
                name,
            ),
        ensures
            final(self).wf(),
            final(context).loaded() == old(context).loaded(),
            final(self)@ == old(self)@.after_event(*event),
            final(context).queued() == match old(self)@.event_sound(*event) {
                Some(name) => old(context).queued().push(name),
                None => old(context).queued(),
            },
    {
        if !self.clock.is_running() || !self.change_snake_direction {
            return;
        }
        let direction = match heading(event) {
            Some(direction) => direction,
            None => {
                return;
            },
        };
        let now = self.snake.head.direction;
        if direction == now || direction == now.opposite() {
            return;
        }
        proof {
            lemma_turn_is_noted(
                self.body@,
                0,
                self.snake.last.direction,
                self.snake.joint_queue@,
                self.snake.head,
                direction,
            );
        }
        self.snake.head.direction = direction;
        self.snake.joint_queue.push_back(
            SnakePart { position: self.snake.head.position, direction },
        );
        self.change_snake_direction = false;
        self.pending = Ghost(true);
        context.play_sound("turn");
    }

    /// Lets `dt` microseconds pass. Where that brings the time for a step,
    /// a change of heading is accepted again, and the snake looks at the
    /// cell before its head: on wall or on itself it dies, the game is over
    /// and the sound `die` is asked for; on food it grows by that cell, new
    /// food is placed on a free cell picked at random, and the sound `eat`
    /// is asked for; else it moves, its last cell following.
    pub fn tick(&mut self, context: &mut Context, dt: u64) -> (outcome: Tick)
        requires
            old(self).wf(),
            old(self)@.tick_sound(dt as nat) matches Some(name) ==> old(context).loaded().contains(
                name,
            ),
        ensures
            final(self).wf(),
            final(context).loaded() == old(context).loaded(),
            final(context).queued() == match old(self)@.tick_sound(dt as nat) {
                Some(name) => old(context).queued().push(name),
                None => old(context).queued(),
            },
            exists|place: int|
                {
                    &&& #[trigger] stage(place)
                    &&& old(self)@.food_is_due(dt as nat) ==> 0 <= place < old(self)@.free.len()
                    &&& (final(self)@, outcome) == old(self)@.ticked(dt as nat, place)
                },
    {
        let place = if self.food_is_due(dt) {
            random_below(self.air_indices.len())
        } else {
            0
        };
        let outcome = self.tick_with(context, dt, place);
        assert(stage(place as int));
        outcome
    }

    /// Lets `dt` microseconds pass as `tick` does, with `place` as the place
    /// in the free list that was drawn for new food. Where no food is placed,
    /// `place` plays no part.
    pub fn tick_with(&mut self, context: &mut Context, dt: u64, place: usize) -> (outcome: Tick)
        requires
            old(self).wf(),
            old(self)@.tick_sound(dt as nat) matches Some(name) ==> old(context).loaded().contains(
                name,
            ),
            old(self)@.food_is_due(dt as nat) ==> place < old(self)@.free.len(),
        ensures
            final(self).wf(),
            final(context).loaded() == old(context).loaded(),
            final(context).queued() == match old(self)@.tick_sound(dt as nat) {
                Some(name) => old(context).queued().push(name),
                None => old(context).queued(),
            },
            (final(self)@, outcome) == old(self)@.ticked(dt as nat, place as int),
    {
        let (target, ahead) = self.look_ahead();
        if !self.clock.advance(dt) {
            return Tick::Waiting;
        }
        if ahead == WALL || ahead == SNAKE {
            self.change_snake_direction = true;
            self.clock.pause();
            context.play_sound("die");
            Tick::Died
        } else if ahead == FOOD {
            let food = self.eat(target, place);
            context.play_sound("eat");
            Tick::Ate { food }
        } else {
            self.crawl(target);
            Tick::Moved
        }
    }

    /// The body with the cell before the head at its end has no cell twice
    /// and leads to the head moved there.
    proof fn lemma_longer_body(&self, target: u16)
        requires
            self.wf(),
            target == self@.target(),
            target < CELLS,
            self.data@[target as int] != SNAKE,
        ensures
            self.body@.push(target).no_duplicates(),
            leads_to_head(
                self.body@.push(target),
                0,
                self.snake.last.direction,
                self.snake.joint_queue@,
                SnakePart { position: target, direction: self.snake.head.direction },
                false,
            ),
    {
        let longer = self.body@.push(target);
        lemma_head_moves_on(
            self.body@,
            0,
            self.snake.last.direction,
            self.snake.joint_queue@,
            self.snake.head,
            self.pending@,
            target,
        );
        assert forall|i: int| 0 <= i < self.body@.len() implies self.body@[i] != target by {
            assert(self.data@[self.body@[i] as int] == SNAKE);
        }
        assert forall|i: int, j: int|
            0 <= i < longer.len() && 0 <= j < longer.len() && i != j implies longer[i]
            != longer[j] by {
            if i < self.body@.len() {
                assert(longer[i] == self.body@[i]);
            }
            if j < self.body@.len() {
                assert(longer[j] == self.body@[j]);
            }
        }
    }

    /// Moves the head onto the food on `target`, and places new food on the
    /// free cell at place `place`.
    fn eat(&mut self, target: u16, place: usize) -> (food: Option<u16>)
        requires
            old(self).wf(),
            target == old(self)@.target(),
            target < CELLS,
            old(self)@.cells[target as int] == FOOD,
            old(self)@.free.len() > 0 ==> place < old(self)@.free.len(),
        ensures
            final(self).wf(),
            final(self)@ == (SnakeGridView { can_turn: true, ..old(self)@ }).advanced_head().fed(
                place as int,
            ),
            food == (SnakeGridView { can_turn: true, ..old(self)@ }).advanced_head().food_at(
                place as int,
            ),
    {
        let ghost longer = self.body@.push(target);
        proof {
            self.lemma_longer_body(target);
            self.air_indices.lemma_distinct();
            crate::common::sparse_set::lemma_removed(self.air_indices@, target);
        }
        self.snake.head.position = target;
        self.data.set(target as usize, SNAKE);
        self.air_indices.remove(target);
        self.change_snake_direction = true;
        self.body = Ghost(longer);
        self.pending = Ghost(false);
        proof {
            assert forall|p: u16| #[trigger]
                self.air_indices@.contains(p) <==> (p < CELLS && self.data@[p as int]
                    == AIR) by {
                assert(old(self).air_indices@.contains(p) <==> (p < CELLS && old(
                    self,
                ).data@[p as int] == AIR));
            }
            assert forall|i: int| 0 <= i < longer.len() implies (#[trigger] longer[i]) < CELLS
                && self.data@[longer[i] as int] == SNAKE by {
                if i < old(self).body@.len() {
                    assert(longer[i] == old(self).body@[i]);
                }
            }
            assert forall|p: int| 0 <= p < CELLS && is_border(p) implies #[trigger] self.data@[p]
                == WALL by {
                assert(old(self).data@[p] == WALL);
            }
            assert(longer[0] == old(self).body@[0]);
            assert(self.wf());
        }
        assert(self.air_indices@ == old(self).air_indices@);
        self.feed(place)
    }

    /// Moves the last cell on by one, and the head onto the free cell
    /// `target`.
    fn crawl(&mut self, target: u16)
        requires
            old(self).wf(),
            target == old(self)@.target(),
            target < CELLS,
            old(self)@.cells[target as int] != WALL,
            old(self)@.cells[target as int] != SNAKE,
            old(self)@.cells[target as int] != FOOD,
        ensures
            final(self).wf(),
            final(self)@ == (SnakeGridView {
                can_turn: true,
                ..old(self)@
            }).retracted().advanced_head(),
    {
        let head = self.snake.head;
        let ghost longer = self.body@.push(target);
        proof {
            self.lemma_longer_body(target);
            self.lemma_wf_shows();
        }
        let last = self.snake.last;
        let ghost joints = self.snake.joint_queue@;
        let ghost turns = joints.len() > 0 && joints[0].position == last.position;
        let ghost onward = if turns {
            joints[0].direction
        } else {
            last.direction
        };
        let ghost rest = if turns {
            joints.drop_first()
        } else {
            joints
        };
        proof {
            assert(longer[0] == last.position);
            assert(longer.len() >= 2);
            assert(longer[1] == next_cell(longer[0] as int, onward));
            lemma_body_without_first(
                longer,
                0,
                onward,
                rest,
                SnakePart { position: target, direction: head.direction },
                false,
            );
            assert(longer[1] < CELLS) by {
                if old(self).body@.len() >= 2 {
                    assert(longer[1] == old(self).body@[1]);
                }
            }
            self.air_indices.lemma_distinct();
            crate::common::sparse_set::lemma_added(self.air_indices@, last.position);
        }
        self.data.set(last.position as usize, AIR);
        self.air_indices.add(last.position);
        if self.snake.joint_queue.len() > 0 {
            let joint = self.snake.joint_queue[0];
            if joint.position == last.position {
                self.snake.last.direction = joint.direction;
                let _ = self.snake.joint_queue.pop_front();
            }
        }
        assert(self.snake.joint_queue@ == rest);
        assert(self.snake.last.direction == onward);
        self.snake.last.position = match self.snake.last.direction {
            Direction::Up => last.position - DIM,
            Direction::Right => last.position + 1,
            Direction::Down => last.position + DIM,
            Direction::Left => last.position - 1,
        };
        let ghost air_mid = self.air_indices@;
        proof {
            self.air_indices.lemma_distinct();
            crate::common::sparse_set::lemma_removed(air_mid, target);
        }
        self.snake.head.position = target;
        self.data.set(target as usize, SNAKE);
        self.air_indices.remove(target);
        self.change_snake_direction = true;
        self.body = Ghost(longer.drop_first());
        self.pending = Ghost(false);
        proof {
            let body = longer.drop_first();
            assert forall|i: int| 0 <= i < body.len() implies #[trigger] body[i] == longer[i + 1] by {}
            assert(body.no_duplicates()) by {
                assert forall|i: int, j: int|
                    0 <= i < body.len() && 0 <= j < body.len() && i != j implies body[i]
                    != body[j] by {
                    assert(body[i] == longer[i + 1]);
                    assert(body[j] == longer[j + 1]);
                }
            }
            assert forall|p: u16| #[trigger]
                self.air_indices@.contains(p) <==> (p < CELLS && self.data@[p as int] == AIR) by {
                assert(old(self).air_indices@.contains(p) <==> (p < CELLS && old(self).data@[p as int]
                    == AIR));
                assert(air_mid.contains(p) <==> (old(self).air_indices@.contains(p) || p
                    == last.position));
                assert(self.air_indices@.contains(p) <==> (air_mid.contains(p) && p != target));
            }
            assert forall|i: int| 0 <= i < body.len() implies (#[trigger] body[i]) < CELLS
                && self.data@[body[i] as int] == SNAKE by {
                assert(body[i] == longer[i + 1]);
                if i + 1 < old(self).body@.len() {
                    assert(longer[i + 1] == old(self).body@[i + 1]);
                    assert(old(self).body@[i + 1] != old(self).body@[0]);
                    assert(old(self).data@[old(self).body@[i + 1] as int] == SNAKE);
                }
            }
            assert forall|p: int| 0 <= p < CELLS && is_border(p) implies #[trigger] self.data@[p]
                == WALL by {
                assert(old(self).data@[p] == WALL);
            }
            assert(body[0] == longer[1]);
        }
    }

    /// Whether the game still runs.
    pub fn is_running(&self) -> (running: bool)
        ensures
            running == self@.clock.running,
    {
        self.clock.is_running()
    }

    /// The head of the snake.
    pub fn head(&self) -> (head: SnakePart)
        ensures
            head == self@.head,
    {
        self.snake.head
    }

    /// The last cell of the snake.
    pub fn last(&self) -> (last: SnakePart)
        ensures
            last == self@.last,
    {
        self.snake.last
    }

    /// How many turns the last cell has still to take.
    pub fn joint_count(&self) -> (n: usize)
        ensures
            n == self@.joints.len(),
    {
        self.snake.joint_queue.len()
    }

    /// Whether a change of heading is still accepted before the next step.
    pub fn can_turn(&self) -> (ready: bool)
        ensures
            ready == self@.can_turn,
    {
        self.change_snake_direction
    }

    /// What lies on cell `cell`, or wall beyond the board.
    pub fn cell(&self, cell: usize) -> (kind: u8)
        ensures
            kind == if cell < self@.cells.len() {
                self@.cells[cell as int]
            } else {
                WALL
            },
    {
        if cell < self.data.len() {
            self.data[cell]
        } else {
            WALL
        }
    }

    /// What lies on the cells, row by row.
    pub fn cells(&self) -> (cells: Vec<u8>)
        ensures
            cells@ == self@.cells,
    {
        let mut cells: Vec<u8> = Vec::new();
        let mut i: usize = 0;
        while i < self.data.len()
            invariant
                i <= self.data@.len(),
                cells@ == self.data@.subrange(0, i as int),
            decreases self.data@.len() - i,
        {
            cells.push(self.data[i]);
            i += 1;
        }
        assert(self.data@.subrange(0, i as int) == self.data@);
        cells
    }
}

/// The cells of the board as a grid sees them: each a box in the colour of
/// what lies on it.
#[derive(Debug)]
pub struct BoardCells {
    pub data: Vec<u8>,
}

impl CellMaker for BoardCells {
    type Cell = BoxNode;

    /// The box for a cell has the colour of what lies on the cell; beyond
    /// the board it has the colour of wall.
    open spec fn makes_cell(self, index: usize, cell: BoxNode) -> bool {
        cell.color.argb == color_of(
            if index < self.data@.len() {
                self.data@[index as int]
            } else {
                WALL
            },
        )
    }

    fn cell_at(&self, index: usize) -> (cell: BoxNode) {
        let kind = if index < self.data.len() {
            self.data[index]
        } else {
            WALL
        };
        BoxNode { color: cell_color(kind) }
    }
}

impl SnakeGridState {
    /// The view of the game for this pass: a grid of 31 by 31 boxes with
    /// gaps of 8 pixels, as high as the room on offer is wide, one box per
    /// cell of the board in the colour of what lies on it.
    pub fn make(&self, constraint: Box2D) -> (grid: GridNode<BoardCells>)
        requires
            constraint.size.0 > 0,
        ensures
            grid.shape_of() == (GridShape {
                dim: (31, 31),
                gap: (8, 8),
                size: (i32::MAX, constraint.size.0),
                at_bottom: true,
            }),
            grid.maker_of().data@ == self@.cells,
    {
        GridNode::new(
            (DIM as usize, DIM as usize),
            (8, 8),
            (i32::MAX, constraint.size.0),
            BoardCells { data: self.cells() },
        )
    }
}

impl SnakeGridState {
    /// The shape of the board as `draw` lays it out in the room
    /// `constraint`: 31 by 31 cells with gaps of 8 pixels, as wide as the
    /// room is high, in the middle of the room.
    pub open spec fn board_shape(constraint: Box2D) -> GridShape {
        GridShape {
            dim: (31, 31),
            gap: (8, 8),
            size: (constraint.size.1, constraint.size.1),
            at_bottom: false,
        }
    }

    /// Draws the board into `constraint`: one box per cell, in the colour of
    /// what lies on it.
    pub fn draw(&self, canvas: &mut Canvas, constraint: Box2D)
        requires
            constraint.size.1 > 0,
        ensures
            exists|maker: BoardCells|
                {
                    &&& #[trigger] stage(maker)
                    &&& maker.data@ == self@.cells
                    &&& grid_painted(
                        maker,
                        Self::board_shape(constraint),
                        constraint,
                        old(canvas)@,
                        final(canvas)@,
                    )
                },
    {
        let gap = Some((Some(8i32), Some(8i32)));
        let size = Some((Some(constraint.size.1), None::<i32>));
        proof {
            assert(first_of(gap, 1) == 8 && second_of(gap, 1) == 8);
            assert(first_of(size, 1) == constraint.size.1 && second_of(size, 1) == 1);
        }
        let grid = Grid::new(
            (DIM as usize, DIM as usize),
            gap,
            size,
            BoardCells { data: self.cells() },
        );
        grid.draw(canvas, constraint);
        assert(stage(grid.maker_of()));
    }
}

/// On a square room with sides of `side` pixels, wider than the gaps, each
/// cell of the board is the 31st part of what the 30 gaps of 8 pixels leave,
/// across and down, and the first cell lies in the room's corner.
pub proof fn lemma_board_cells_share_the_square(origin: (i32, i32), side: i32)
    requires
        side > 240,
    ensures
        ({
            let constraint = Box2D { position: origin, size: (side, side) };
            let shape = GridShape {
                dim: (31, 31),
                gap: (8, 8),
                size: (i32::MAX, side),
                at_bottom: true,
            };
            &&& shape.valid()
            &&& shape.cell_width(constraint) == (side - 8 * 30) / 31
            &&& shape.cell_height(constraint) == (side - 8 * 30) / 31
            &&& shape.cell_x(constraint, 0) == origin.0
            &&& shape.cell_y(constraint, 0) == origin.1
            &&& SnakeGridState::board_shape(constraint).cell_width(constraint) == (side - 8 * 30)
                / 31
        }),
{
}

/// The order that draws cell `index` of the board: fill the cell's room with
/// the colour of what lies on the cell.
pub open spec fn cell_order(
    maker: BoardCells,
    shape: GridShape,
    constraint: Box2D,
    index: int,
) -> DrawOp {
    DrawOp::Rect(
        shape.cell(constraint, index)->0,
        Color { argb: color_of(maker.data@[index]) },
    )
}

/// Drawing the first `upto` cells of the board, where they all fit, gives
/// one order per cell, in the order of the numbers: the cell's room in the
/// colour of what lies on the cell.
pub proof fn lemma_board_is_painted_cell_by_cell(
    maker: BoardCells,
    shape: GridShape,
    constraint: Box2D,
    upto: nat,
    canvas: Seq<DrawOp>,
    canvas_after: Seq<DrawOp>,
)
    requires
        upto <= maker.data@.len(),
        upto <= usize::MAX,
        forall|i: int| 0 <= i < upto ==> shape.cell_fits(constraint, i),
        cells_painted(maker, shape, constraint, upto, canvas, canvas_after),
    ensures
        canvas_after == canvas + Seq::new(
            upto,
            |i: int| cell_order(maker, shape, constraint, i),
        ),
    decreases upto,
{
    let orders = Seq::new(upto, |i: int| cell_order(maker, shape, constraint, i));
    if upto == 0 {
        assert(canvas + orders == canvas);
    } else {
        let before = (upto - 1) as nat;
        let canvas_mid = choose|canvas_mid: Seq<DrawOp>|
            {
                &&& #[trigger] stage(canvas_mid)
                &&& cells_painted(maker, shape, constraint, before, canvas, canvas_mid)
                &&& cell_painted(
                    maker,
                    shape,
                    constraint,
                    before as usize,
                    canvas_mid,
                    canvas_after,
                )
            };
        lemma_board_is_painted_cell_by_cell(maker, shape, constraint, before, canvas, canvas_mid);
        assert(shape.cell_fits(constraint, before as int));
        let room = shape.cell(constraint, before as int)->0;
        let cell = choose|cell: BoxNode|
            {
                &&& #[trigger] stage(cell)
                &&& maker.makes_cell(before as usize, cell)
                &&& cell.paints(room, canvas_mid, canvas_after)
            };
        let earlier = Seq::new(before, |i: int| cell_order(maker, shape, constraint, i));
        assert(cell.color == Color { argb: color_of(maker.data@[before as int]) });
        assert(orders == earlier.push(cell_order(maker, shape, constraint, before as int)));
        assert(canvas + orders == (canvas + earlier).push(
            cell_order(maker, shape, constraint, before as int),
        ));
    }
}

/// Putting `kind` on a cell changes how often a kind lies on the board by
/// what the cell gains and loses.
pub proof fn lemma_count_after_update(cells: Seq<u8>, at: int, kind: u8, counted: u8, upto: int)
    requires
        0 <= at < cells.len(),
        0 <= upto <= cells.len(),
    ensures
        count_of(cells.update(at, kind), counted, upto) == count_of(cells, counted, upto) + (if at
            < upto && kind == counted {
            1int
        } else {
            0int
        }) - (if at < upto && cells[at] == counted {
            1int
        } else {
            0int
        }),
    decreases upto,
{
    if upto > 0 {
        lemma_count_after_update(cells, at, kind, counted, upto - 1);
    }
}

/// When the snake eats, its last cell stays where it is, the snake lies on
/// one cell more than before, and the new food lies on the free cell that
/// was drawn.
pub proof fn lemma_eating_grows_the_snake(game: SnakeGridView, dt: nat, place: int)
    requires
        game.cells.len() == CELLS,
        0 <= game.target() < CELLS,
        game.steps_after(dt),
        game.cells[game.target()] == FOOD,
        game.free.no_duplicates(),
        forall|p: u16| #[trigger]
            game.free.contains(p) <==> (p < CELLS && game.cells[p as int] == AIR),
        game.free.len() > 0 ==> 0 <= place < game.free.len(),
    ensures
        game.ticked(dt, place).1 is Ate,
        game.ticked(dt, place).0.last == game.last,
        game.ticked(dt, place).0.joints == game.joints,
        game.ticked(dt, place).0.head.position == game.target(),
        count_of(game.ticked(dt, place).0.cells, SNAKE, CELLS as int) == count_of(
            game.cells,
            SNAKE,
            CELLS as int,
        ) + 1,
        game.free.len() > 0 ==> {
            &&& game.ticked(dt, place).1 == Tick::Ate { food: Some(game.free[place]) }
            &&& game.cells[game.free[place] as int] == AIR
            &&& game.ticked(dt, place).0.cells[game.free[place] as int] == FOOD
            &&& game.ticked(dt, place).0.free == swap_removed(game.free, place)
        },
{
    let grown = game.cells.update(game.target(), SNAKE);
    lemma_count_after_update(game.cells, game.target(), SNAKE, SNAKE, CELLS as int);
    assert(!game.free.contains(game.target() as u16));
    assert(removed(game.free, game.target() as u16) == game.free);
    if game.free.len() > 0 {
        let cell = game.free[place];
        assert(game.free.contains(cell));
        lemma_count_after_update(grown, cell as int, FOOD, SNAKE, CELLS as int);
    }
}

/// When the snake runs into the wall or into itself, the game is over: the
/// clock is paused for good, and the board and the snake stay as they are.
pub proof fn lemma_collision_ends_the_game(game: SnakeGridView, dt: nat, place: int)
    requires
        game.steps_after(dt),
        game.cells[game.target()] == WALL || game.cells[game.target()] == SNAKE,
    ensures
        game.ticked(dt, place).1 == Tick::Died,
        !game.ticked(dt, place).0.clock.running,
        game.ticked(dt, place).0.cells == game.cells,
        game.ticked(dt, place).0.free == game.free,
        game.ticked(dt, place).0.head == game.head,
        game.ticked(dt, place).0.last == game.last,
        game.ticked(dt, place).0.joints == game.joints,
        game.tick_sound(dt) == Some("die"@),
{
}

/// A game that is over stays as it is, whatever time passes and whatever
/// event comes, and asks for no sound.
pub proof fn lemma_game_over_is_final(game: SnakeGridView, dt: nat, place: int, event: Event)
    requires
        !game.clock.running,
    ensures
        game.ticked(dt, place) == (game, Tick::Waiting),
        game.tick_sound(dt) is None,
        game.after_event(event) == game,
        game.event_sound(event) is None,
{
}

/// A key for the heading opposite to the present one is never accepted, nor
/// one for the present heading.
pub proof fn lemma_reverse_is_refused(game: SnakeGridView, direction: Direction)
    requires
        direction == game.head.direction.reversed() || direction == game.head.direction,
    ensures
        !game.accepts(direction),
        game.after_event(Event::KeyDown(Some(Key::Other))) == game,
        forall|event: Event|
            heading_of(event) == Some(direction) ==> #[trigger] game.after_event(event) == game
                && game.event_sound(event) is None,
{
}

} // verus!
