use view_engine::canvas::DrawOp;
use view_engine::models::{Box2D, Color, Event};
use view_engine::nodes::grid_node::PlainCells;
use view_engine::nodes::{BoxNode, CellMaker, Grid, GridNode, GridShape, Node};
use view_engine::{Canvas, Context};

struct Numbered;

impl CellMaker for Numbered {
    type Cell = BoxNode;

    fn cell_at(&self, index: usize) -> BoxNode {
        BoxNode { color: Color::new(index as u32) }
    }
}

fn room(x: i32, y: i32, w: i32, h: i32) -> Box2D {
    Box2D { position: (x, y), size: (w, h) }
}

fn board(side: i32) -> GridShape {
    GridShape { dim: (31, 31), gap: (8, 8), size: (i32::MAX, side), at_bottom: true }
}

fn rects(canvas: &mut Canvas) -> Vec<(Box2D, u32)> {
    canvas
        .take_ops()
        .into_iter()
        .map(|op| match op {
            DrawOp::Rect(rect, color) => (rect, color.argb),
            _ => panic!("a grid only fills rectangles"),
        })
        .collect()
}

#[test]
fn cells_of_the_board_share_what_the_gaps_leave() {
    let shape = board(860);
    assert!(shape.is_valid());
    assert_eq!(shape.cell_count(), 961);
    let first = shape.cell_box(room(0, 0, 860, 860), 0).unwrap();
    assert_eq!(first, room(0, 0, 20, 20));
    let second = shape.cell_box(room(0, 0, 860, 860), 1).unwrap();
    assert_eq!(second, room(28, 0, 20, 20));
    let below = shape.cell_box(room(0, 0, 860, 860), 31).unwrap();
    assert_eq!(below, room(0, 28, 20, 20));
    let last = shape.cell_box(room(0, 0, 860, 860), 960).unwrap();
    assert_eq!(last, room(840, 840, 20, 20));
}

#[test]
fn cell_size_is_rounded_down() {
    let shape = board(1000);
    let cell = shape.cell_box(room(0, 0, 1000, 1000), 0).unwrap();
    assert_eq!(cell.size, (24, 24));
    let last = shape.cell_box(room(0, 0, 1000, 1000), 960).unwrap();
    assert_eq!(last.position, (30 * 32, 30 * 32));
}

#[test]
fn neighbours_are_one_gap_apart() {
    let shape = GridShape { dim: (5, 3), gap: (3, 7), size: (200, 100), at_bottom: false };
    let place = room(11, -4, 300, 150);
    for index in 0..15usize {
        let cell = shape.cell_box(place, index).unwrap();
        assert_eq!(cell.size, (37, 28));
        if index % 5 != 4 {
            let right = shape.cell_box(place, index + 1).unwrap();
            assert_eq!(right.position.0, cell.position.0 + cell.size.0 + 3);
            assert_eq!(right.position.1, cell.position.1);
        }
        if index + 5 < 15 {
            let below = shape.cell_box(place, index + 5).unwrap();
            assert_eq!(below.position.1, cell.position.1 + cell.size.1 + 7);
            assert_eq!(below.position.0, cell.position.0);
        }
    }
}

#[test]
fn a_grid_sits_in_the_middle_across_and_at_the_bottom_or_in_the_middle() {
    let low = GridShape { dim: (2, 2), gap: (2, 2), size: (10, 10), at_bottom: true };
    assert_eq!(low.cell_box(room(0, 0, 30, 40), 0), Some(room(10, 30, 4, 4)));
    assert_eq!(low.cell_box(room(0, 0, 30, 40), 3), Some(room(16, 36, 4, 4)));
    let centred = GridShape { at_bottom: false, ..low };
    assert_eq!(centred.cell_box(room(0, 0, 30, 40), 0), Some(room(10, 15, 4, 4)));
}

#[test]
fn a_room_smaller_than_the_gaps_gives_empty_cells() {
    let shape = GridShape { dim: (4, 1), gap: (10, 10), size: (100, 100), at_bottom: false };
    let cell = shape.cell_box(room(0, 0, 20, 20), 1).unwrap();
    assert_eq!(cell.size.0, 0);
    assert_eq!(cell.position.0, 10);
}

#[test]
fn a_cell_beyond_the_pixels_is_left_out() {
    let shape = GridShape { dim: (2, 1), gap: (1, 1), size: (i32::MAX, 10), at_bottom: false };
    let place = room(i32::MAX - 10, 0, i32::MAX, 10);
    assert!(shape.cell_box(place, 0).is_some());
    assert_eq!(shape.cell_box(place, 1), None);
}

#[test]
fn shapes_without_cells_or_with_empty_gaps_are_not_valid() {
    let good = GridShape { dim: (1, 1), gap: (1, 1), size: (1, 1), at_bottom: true };
    assert!(good.is_valid());
    assert!(!GridShape { dim: (0, 1), ..good }.is_valid());
    assert!(!GridShape { dim: (1, 0), ..good }.is_valid());
    assert!(!GridShape { gap: (0, 1), ..good }.is_valid());
    assert!(!GridShape { gap: (1, -1), ..good }.is_valid());
    assert!(!GridShape { dim: (usize::MAX, 2), ..good }.is_valid());
    assert!(GridShape { size: (0, -5), ..good }.is_valid());
}

#[test]
fn grid_node_draws_every_cell_in_order() {
    let grid = GridNode::new((2, 2), (2, 2), (10, 10), Numbered);
    let mut canvas = Canvas::new();
    grid.draw(&mut canvas, room(0, 0, 10, 10));
    assert_eq!(
        rects(&mut canvas),
        vec![
            (room(0, 0, 4, 4), 0),
            (room(6, 0, 4, 4), 1),
            (room(0, 6, 4, 4), 2),
            (room(6, 6, 4, 4), 3),
        ]
    );
    assert_eq!(grid.get_size(), (10, 10));
    assert_eq!(grid.shape().dim, (2, 2));
    assert_eq!(grid.shape().gap, (2, 2));
    assert!(grid.shape().at_bottom);
}

#[test]
fn a_grid_node_needs_cells_gaps_and_a_size() {
    assert!(GridNode::try_new((2, 2), (2, 2), (10, 10), Numbered).is_some());
    assert!(GridNode::try_new((0, 2), (2, 2), (10, 10), Numbered).is_none());
    assert!(GridNode::try_new((2, 0), (2, 2), (10, 10), Numbered).is_none());
    assert!(GridNode::try_new((2, 2), (0, 2), (10, 10), Numbered).is_none());
    assert!(GridNode::try_new((2, 2), (2, -2), (10, 10), Numbered).is_none());
    assert!(GridNode::try_new((2, 2), (2, 2), (0, 10), Numbered).is_none());
    assert!(GridNode::try_new((2, 2), (2, 2), (10, -1), Numbered).is_none());
    assert!(GridNode::try_new((usize::MAX, 2), (2, 2), (10, 10), Numbered).is_none());
}

#[test]
fn a_grid_needs_cells_and_what_it_gives_positive() {
    assert!(Grid::try_new((2, 2), None, None, Numbered).is_some());
    assert!(Grid::try_new((2, 2), Some((None, Some(3))), Some((Some(5), None)), Numbered).is_some());
    assert!(Grid::try_new((0, 2), None, None, Numbered).is_none());
    assert!(Grid::try_new((2, usize::MAX), None, None, Numbered).is_none());
    assert!(Grid::try_new((2, 2), Some((Some(0), None)), None, Numbered).is_none());
    assert!(Grid::try_new((2, 2), Some((None, Some(-1))), None, Numbered).is_none());
    assert!(Grid::try_new((2, 2), None, Some((Some(0), None)), Numbered).is_none());
    assert!(Grid::try_new((2, 2), None, Some((None, Some(-7))), Numbered).is_none());
}

#[test]
fn default_grid_node_has_sixteen_plain_cells() {
    let grid: GridNode<PlainCells> = GridNode::default();
    assert_eq!(grid.shape().dim, (4, 4));
    assert_eq!(grid.shape().gap, (4, 4));
    assert_eq!(grid.shape().size, (i32::MAX, i32::MAX));
    let mut canvas = Canvas::new();
    grid.draw(&mut canvas, room(0, 0, 28, 28));
    let drawn = rects(&mut canvas);
    assert_eq!(drawn.len(), 16);
    assert_eq!(drawn[5], (room(8, 8, 4, 4), 0));
}

#[test]
fn grid_with_open_gap_and_size_takes_the_room_and_four_pixels() {
    let grid = Grid::new((2, 1), None, None, Numbered);
    assert_eq!(grid.shape(room(0, 0, 24, 10)).gap, (4, 4));
    assert_eq!(grid.shape(room(0, 0, 24, 10)).size, (24, 10));
    assert_eq!(grid.get_size(), (i32::MAX, i32::MAX));
    let mut canvas = Canvas::new();
    grid.draw(&mut canvas, room(0, 0, 24, 10));
    assert_eq!(rects(&mut canvas), vec![(room(0, 0, 10, 10), 0), (room(14, 0, 10, 10), 1)]);
}

#[test]
fn grid_with_open_size_in_an_empty_room_draws_empty_cells() {
    let grid = Grid::new((2, 1), None, None, Numbered);
    let mut canvas = Canvas::new();
    grid.draw(&mut canvas, room(3, 4, 0, 0));
    assert_eq!(rects(&mut canvas), vec![(room(3, 4, 0, 0), 0), (room(7, 4, 0, 0), 1)]);
}

#[test]
fn grid_with_its_own_size_sits_in_the_middle() {
    let grid = Grid::new((1, 1), Some((Some(6), None)), Some((Some(10), Some(20))), Numbered);
    let shape = grid.shape(room(0, 0, 30, 40));
    assert_eq!(shape.gap, (6, 4));
    assert_eq!(shape.size, (10, 20));
    assert_eq!(grid.get_size(), (10, 20));
    let mut canvas = Canvas::new();
    grid.draw(&mut canvas, room(0, 0, 30, 40));
    assert_eq!(rects(&mut canvas), vec![(room(10, 10, 10, 20), 0)]);
}

#[test]
fn box_node_fills_its_room() {
    let node = BoxNode { color: Color::new(0xFF00_FF00) };
    let mut canvas = Canvas::new();
    node.draw(&mut canvas, room(3, 4, 5, 6));
    assert_eq!(rects(&mut canvas), vec![(room(3, 4, 5, 6), 0xFF00_FF00)]);
    assert_eq!(BoxNode::default().color, Color::default());
    assert_eq!(node.get_size(), (i32::MAX, i32::MAX));
}

#[test]
fn signals_pass_through_a_grid_without_a_trace() {
    let mut grid = GridNode::new((3, 3), (1, 1), (9, 9), Numbered);
    let mut context = Context::new(vec![]);
    grid.on_event(&mut context, &Event::Quit);
    grid.tick(&mut context, 1_000);
    assert!(context.take_queued().is_empty());
}
