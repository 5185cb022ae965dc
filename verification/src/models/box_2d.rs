use vstd::prelude::*;

verus! {

/// A rectangle on the drawing surface, in whole pixels: the room a parent
/// offers a child, or the place a node is drawn at.
#[derive(Copy, Clone, Debug)]
pub struct Box2D {
    pub position: (i32, i32),
    pub size: (i32, i32),
}

impl Box2D {
    /// The widest room there is: a view that is offered it decides its size
    /// alone.
    pub open spec fn no_constraint() -> Box2D {
        Box2D { position: (0, 0), size: (i32::MAX, i32::MAX) }
    }

    /// The widest room there is.
    pub fn unconstrained() -> (room: Box2D)
        ensures
            room == Box2D::no_constraint(),
    {
        Box2D { position: (0, 0), size: (i32::MAX, i32::MAX) }
    }
}

impl PartialEq for Box2D {
    fn eq(&self, other: &Box2D) -> (same: bool) {
        self.position.0 == other.position.0 && self.position.1 == other.position.1 && self.size.0
            == other.size.0 && self.size.1 == other.size.1
    }
}

impl vstd::std_specs::cmp::PartialEqSpecImpl for Box2D {
    open spec fn obeys_eq_spec() -> bool {
        true
    }

    open spec fn eq_spec(&self, other: &Box2D) -> bool {
        self.position.0 == other.position.0 && self.position.1 == other.position.1 && self.size.0
            == other.size.0 && self.size.1 == other.size.1
    }
}

impl Eq for Box2D {

}

impl Default for Box2D {
    fn default() -> (room: Box2D)
        ensures
            room == (Box2D { position: (0, 0), size: (0, 0) }),
    {
        Box2D { position: (0, 0), size: (0, 0) }
    }
}

} // verus!
