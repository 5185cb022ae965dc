pub mod game_page;
pub mod snake;
pub mod snake_grid;

pub use game_page::GamePageState;
pub use snake::{Snake, SnakePart};
pub use snake_grid::SnakeGridState;
