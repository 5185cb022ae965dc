pub mod multi_child_layout;
pub mod shake;
pub mod stateful_layout;
pub mod stateless_layout;

pub use multi_child_layout::MultiChildLayout;
pub use shake::ShakeState;
pub use stateful_layout::{State, StatefulLayout};
pub use stateless_layout::StatelessLayout;
