pub mod box_2d;
pub mod color;
pub mod direction;
pub mod event;

pub use box_2d::Box2D;
pub use color::Color;
pub use direction::Direction;
pub use event::{Event, Key, Signal};
