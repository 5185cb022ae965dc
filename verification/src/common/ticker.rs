//! The interval clock under the name it has in views that own their children.

pub use super::clock::Clock as Ticker;
