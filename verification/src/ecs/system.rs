use vstd::prelude::*;

verus! {

use crate::ecs::world::World;

/// A unit of per-tick behavior. Implementors read and mutate the world
/// through its checked interface; each hook must leave the world well
/// formed and the registered system list as it found it.
pub trait System<V>: Sized {
    /// One-time hook run when the system is registered.
    fn initialize(&self, world: &mut World<V, Self>)
        requires
            old(world).wf(),
        ensures
            final(world).wf(),
            final(world).systems_spec() == old(world).systems_spec(),
    {
    }

    /// Run once per tick, in descending priority order.
    fn execute(&self, world: &mut World<V, Self>)
        requires
            old(world).wf(),
        ensures
            final(world).wf(),
            final(world).systems_spec() == old(world).systems_spec(),
    ;
}

} // verus!
