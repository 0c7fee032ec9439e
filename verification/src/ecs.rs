use vstd::prelude::*;

pub mod archetype;
pub mod dynamic_storage;
pub mod entity;
pub mod query;
pub mod system;
pub mod world;

verus! {

/// The errors the entity-component store reports. Structural misuse is
/// returned to the caller; a lookup miss is an absent result, not an error.
#[derive(Clone, Copy, PartialEq, Eq, Structural, Debug)]
pub enum ECSError {
    /// A value of this type key is already stored on the same owner.
    DataAlreadyExists,
    /// The world could not take the entity in.
    CouldNotSpawn,
    /// The entity already carries an id and cannot be inserted again.
    AlreadyInserted,
    /// The computed slot index is not the current end of its partition.
    InvalidInsertionIndex(usize),
    /// The entity was stored but could not be read back.
    CouldNotRetrieve,
    /// A shared or exclusive access was requested while an incompatible
    /// access is outstanding.
    BorrowConflict,
}

} // verus!
