//! A small retained-tree view engine: a scene is a tree of views, some of
//! which keep state across frames, walked once per frame for input events,
//! simulation ticks and drawing.

pub mod canvas;
pub mod common;
pub mod context;
pub mod engine;
pub mod frame;
pub mod game;
pub mod layouts;
pub mod models;
pub mod nodes;
pub mod view;
pub mod views;

pub use canvas::Canvas;
pub use context::Context;
pub use engine::Engine;
pub use view::View;
