use vstd::prelude::*;

verus! {

use crate::vectors::Vector;

/// A translation of grid coordinates by a fixed offset, with its inverse.
#[derive(Debug, Clone, Copy, PartialEq, Eq, Structural)]
pub struct Transform {
    offset: Vector,
}

impl Transform {
    /// The translation's offset.
    pub closed spec fn offset_spec(&self) -> Vector {
        self.offset
    }

    pub fn new(offset: Vector) -> (r: Self)
        ensures
            r.offset_spec() == offset,
    {
        Transform { offset }
    }

    /// The translation that moves nothing.
    pub fn identity() -> (r: Self)
        ensures
            r.offset_spec() == (Vector { x: 0, y: 0 }),
    {
        Transform::new(Vector::new(0, 0))
    }

    /// World coordinates of a point given in this transform's local frame.
    pub fn apply(&self, input: Vector) -> (r: Vector)
        requires
            i32::MIN <= input.x + self.offset_spec().x <= i32::MAX,
            i32::MIN <= input.y + self.offset_spec().y <= i32::MAX,
        ensures
            r.x == input.x + self.offset_spec().x,
            r.y == input.y + self.offset_spec().y,
    {
        input.add(self.offset)
    }

    /// Local coordinates of a point given in world frame: undoes `apply`.
    pub fn inverse_apply(&self, input: Vector) -> (r: Vector)
        requires
            i32::MIN <= input.x - self.offset_spec().x <= i32::MAX,
            i32::MIN <= input.y - self.offset_spec().y <= i32::MAX,
        ensures
            r.x == input.x - self.offset_spec().x,
            r.y == input.y - self.offset_spec().y,
    {
        input.sub(self.offset)
    }
}

} // verus!
