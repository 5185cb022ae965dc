pub mod asset_loader;
pub mod clock;
pub mod random;
pub mod sharable;
pub mod sparse_set;
pub mod ticker;

pub use clock::Clock;
pub use sharable::Sharable;
pub use sparse_set::SparseSet;
pub use ticker::Ticker;
