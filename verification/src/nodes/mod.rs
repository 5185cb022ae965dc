pub mod box_node;
pub mod grid;
pub mod grid_layout;
pub mod grid_node;
pub mod node;
pub mod shake;

pub use box_node::BoxNode;
pub use grid::Grid;
pub use grid_layout::GridShape;
pub use grid_node::{CellMaker, GridNode};
pub use node::Node;
pub use shake::Shake;
