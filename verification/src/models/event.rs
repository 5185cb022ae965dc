use vstd::prelude::*;

verus! {

/// A key of the keyboard, as far as a view can tell keys apart.
#[derive(Copy, Clone, Debug, PartialEq, Eq, Structural)]
pub enum Key {
    Up,
    Right,
    Down,
    Left,
    W,
    D,
    S,
    A,
    /// Any other key.
    Other,
}

/// What the window reports to the scene.
#[derive(Copy, Clone, Debug, PartialEq, Eq, Structural)]
pub enum Event {
    /// The user asked to leave.
    Quit,
    /// A key went down; `None` where the window could not name it.
    KeyDown(Option<Key>),
    /// Anything else.
    Other,
}

/// What a pass hands to every view on its way: an input event, or the
/// microseconds that one simulation step lasts.
#[derive(Copy, Clone, Debug, PartialEq, Eq, Structural)]
pub enum Signal {
    Event(Event),
    Tick(u64),
}

} // verus!
