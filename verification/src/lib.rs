use vstd::prelude::*;

pub mod components;
pub mod ecs;
pub mod entities;
pub mod input;
pub mod map;
pub mod systems;
pub mod transform;
pub mod ui;
pub mod vectors;

verus! {

/// A process-stable identifier for a concrete component or resource type.
/// The host assigns one distinct key per concrete type: two values of the
/// same type must carry equal keys, values of different types distinct keys.
pub type TypeKey = i64;

} // verus!
