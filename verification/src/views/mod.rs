//! The views that own their children, under the names they go by where a
//! scene is built without layouts: every such view is a leaf to the engine.

pub use crate::frame::App;
pub use crate::game::SnakeGridState as SnakeGrid;
pub use crate::nodes::BoxNode as BoxView;
pub use crate::nodes::Grid;
pub use crate::nodes::Node as View;
pub use crate::nodes::Shake;
