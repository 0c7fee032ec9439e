use vstd::prelude::*;

verus! {

use crate::components::{Component, DebugLevel, TICK_INFO_KEY};
use crate::ecs::ECSError;
use crate::ecs::dynamic_storage::ReferenceState;
use crate::ecs::system::System;
use crate::ecs::world::World;

/// The world's clock: which tick is running, and when the player's view
/// was last recomputed.
pub struct TickInfo {
    current_tick: Option<usize>,
    last_view_update_tick: Option<usize>,
}

impl TickInfo {
    /// The running tick, once the first tick has begun.
    pub closed spec fn current_tick_spec(&self) -> Option<usize> {
        self.current_tick
    }

    /// When the player's view was last recomputed.
    pub closed spec fn last_view_update_spec(&self) -> Option<usize> {
        self.last_view_update_tick
    }

    pub fn new() -> (r: Self)
        ensures
            r.current_tick_spec() is None,
            r.last_view_update_spec() is None,
    {
        TickInfo { current_tick: None, last_view_update_tick: None }
    }

    /// The running tick, once the first tick has begun.
    pub fn current_tick(&self) -> (r: Option<usize>)
        ensures
            r == self.current_tick_spec(),
    {
        self.current_tick
    }

    /// The tick a signed number of ticks away from the running one;
    /// nothing before the clock started or before tick zero.
    pub fn offset_tick(&self, offset: i32) -> (r: Option<usize>)
        requires
            self.current_tick_spec() matches Some(t) ==> t + offset <= usize::MAX,
        ensures
            match self.current_tick_spec() {
                Some(t) => {
                    &&& offset >= 0 ==> r == Some((t + offset) as usize)
                    &&& offset < 0 && t + offset < 0 ==> r is None
                    &&& offset < 0 && t + offset >= 0 ==> r == Some((t + offset) as usize)
                },
                None => r is None,
            },
    {
        match self.current_tick {
            None => None,
            Some(t) => {
                if offset >= 0 {
                    Some(t + (offset as usize))
                } else {
                    let back = (-(offset as i64)) as usize;
                    if back > t {
                        None
                    } else {
                        Some(t - back)
                    }
                }
            },
        }
    }

    /// Start the clock at tick zero, or advance it by one.
    pub fn increment_tick(&mut self)
        requires
            old(self).current_tick_spec() matches Some(t) ==> t < usize::MAX,
        ensures
            final(self).current_tick_spec() == Some(
                match old(self).current_tick_spec() {
                    Some(t) => (t + 1) as usize,
                    None => 0usize,
                },
            ),
            final(self).last_view_update_spec() == old(self).last_view_update_spec(),
    {
        self.current_tick = match self.current_tick {
            Some(t) => Some(t + 1),
            None => Some(0),
        };
    }

    /// When the player's view was last recomputed.
    pub fn last_view_update_tick(&self) -> (r: Option<usize>)
        ensures
            r == self.last_view_update_spec(),
    {
        self.last_view_update_tick
    }

    /// Record that the view was recomputed on the running tick.
    pub fn update_last_view_update(&mut self)
        ensures
            final(self).last_view_update_spec() == old(self).current_tick_spec(),
            final(self).current_tick_spec() == old(self).current_tick_spec(),
    {
        self.last_view_update_tick = self.current_tick;
    }
}

/// Advances the clock once per tick.
pub struct TickSystem {
}

impl TickSystem {
    pub fn new() -> (r: Self) {
        TickSystem {  }
    }

    /// Advance the world's clock resource by one tick: the clock starts at
    /// zero on its first step, then counts up, saturating at the count's
    /// ceiling. Succeeds exactly when the clock resource is stored with no
    /// access outstanding, and releases its exclusive access before
    /// returning.
    pub fn advance<S>(world: &mut World<Component, S>) -> (r: Result<(), ECSError>)
        requires
            old(world).wf(),
        ensures
            final(world).wf(),
            final(world).systems_spec() == old(world).systems_spec(),
            final(world).partitions_spec() == old(world).partitions_spec(),
            old(world).resources_spec().agrees_except(
                &final(world).resources_spec(),
                TICK_INFO_KEY,
            ),
            final(world).resources_spec().spec_has(TICK_INFO_KEY) == old(world).resources_spec().spec_has(TICK_INFO_KEY),
            match r {
                Ok(()) => {
                    &&& old(world).resources_spec().spec_has(TICK_INFO_KEY)
                    &&& old(world).resources_spec().spec_state(TICK_INFO_KEY)
                        == ReferenceState::Idle
                    &&& final(world).resources_spec().spec_state(TICK_INFO_KEY)
                        == ReferenceState::Idle
                    &&& (old(world).resources_spec().spec_value(
                        TICK_INFO_KEY,
                    ) matches Component::TickInfo(before) ==> (final(world).resources_spec().spec_value(TICK_INFO_KEY) matches Component::TickInfo(
                        after,
                    ) && after.current_tick_spec() == Some(
                        match before.current_tick_spec() {
                            None => 0usize,
                            Some(t) => if t < usize::MAX {
                                (t + 1) as usize
                            } else {
                                t
                            },
                        },
                    ) && after.last_view_update_spec() == before.last_view_update_spec()))
                    &&& (!(old(world).resources_spec().spec_value(
                        TICK_INFO_KEY,
                    ) matches Component::TickInfo(_)) ==> final(world).resources_spec().spec_value(
                        TICK_INFO_KEY,
                    ) == old(world).resources_spec().spec_value(TICK_INFO_KEY))
                },
                Err(e) => {
                    &&& old(world).resources_spec().agrees(&final(world).resources_spec())
                    &&& (e == ECSError::CouldNotRetrieve <==> !old(world).resources_spec().spec_has(TICK_INFO_KEY))
                    &&& (e == ECSError::BorrowConflict <==> old(world).resources_spec().spec_has(
                        TICK_INFO_KEY,
                    ) && old(world).resources_spec().spec_state(TICK_INFO_KEY)
                        != ReferenceState::Idle)
                    &&& (e == ECSError::CouldNotRetrieve || e == ECSError::BorrowConflict)
                },
            },
    {
        match world.get_resource_mut(TICK_INFO_KEY) {
            Ok(value) => {
                match value {
                    Component::TickInfo(info) => {
                        let at_end = match info.current_tick() {
                            Some(t) => t == usize::MAX,
                            None => false,
                        };
                        if !at_end {
                            info.increment_tick();
                        }
                    },
                    _ => {},
                }
            },
            Err(e) => {
                return Err(e);
            },
        }
        proof {
            assert(world.resources_spec().spec_has(TICK_INFO_KEY));
            assert(world.resources_spec().spec_state(TICK_INFO_KEY)
                == ReferenceState::Exclusive);
        }
        let released = world.release_resource_mut(TICK_INFO_KEY);
        proof {
            if released is Err {
                assert(false);
            }
        }
        released
    }
}

impl System<Component> for TickSystem {
    fn execute(&self, world: &mut World<Component, Self>) {
        let _ = TickSystem::advance(world);
    }
}

/// Prints collected diagnostics each tick; the printing itself lives with
/// the caller that owns the terminal.
pub struct DebugSystem {
    pub min_level: DebugLevel,
}

impl DebugSystem {
    pub fn new(level: DebugLevel) -> (r: Self)
        ensures
            r.min_level == level,
    {
        DebugSystem { min_level: level }
    }

    pub fn set_level(&mut self, level: DebugLevel)
        ensures
            final(self).min_level == level,
    {
        self.min_level = level;
    }

    /// Whether an inbox holds anything worth showing at this system's
    /// threshold: its highest severity reaches the threshold and at least
    /// one message is waiting.
    pub fn should_report(&self, inbox: &crate::components::Debug) -> (r: bool)
        ensures
            r == (inbox.max_level_spec().rank_spec() >= self.min_level.rank_spec()
                && inbox.messages_spec().len() > 0),
    {
        self.min_level.rank() <= inbox.max_level().rank() && inbox.count() > 0
    }
}

/// Recomputes entity viewsheds each tick; the visibility arithmetic lives
/// with the caller.
pub struct ViewSystem {
}

impl ViewSystem {
    pub fn new() -> (r: Self) {
        ViewSystem {  }
    }
}

} // verus!
