use vstd::prelude::*;

verus! {

use crate::components::{Camera, Component, DebugLevel, Named, Player, Position, CAMERA_KEY, DEBUG_KEY, NAMED_KEY, PLAYER_KEY, POSITION_KEY};
use crate::ecs::ECSError;
use crate::ecs::entity::{Entity, EntityBuilder, EntityId};
use crate::ecs::world::World;

/// A builder threading through fail-fast construction helpers: the first
/// helper that cannot attach its component aborts the chain.
pub type BuilderResult = Result<EntityBuilder<Component>, ECSError>;

/// Attach a display name component. An already-failed chain passes its
/// error through untouched.
pub fn named(entity: BuilderResult, name: String) -> (r: BuilderResult)
    requires
        entity matches Ok(b) ==> b.wf(),
    ensures
        match r {
            Ok(b) => {
                &&& entity matches Ok(b0) && {
                    &&& !b0.components_spec().spec_has(NAMED_KEY)
                    &&& b0.components_spec().agrees_except(&b.components_spec(), NAMED_KEY)
                    &&& forall|x: i64|
                        b.archetype_spec()@.contains(x) <==> (b0.archetype_spec()@.contains(x)
                            || x == NAMED_KEY)
                }
                &&& b.wf()
                &&& b.components_spec().spec_has(NAMED_KEY)
                &&& (b.components_spec().spec_value(NAMED_KEY) matches Component::Named(n)
                    && n.name == name)
            },
            Err(e) => {
                ||| entity matches Err(e0) && e == e0
                ||| entity matches Ok(b0) && e == ECSError::DataAlreadyExists
                    && b0.components_spec().spec_has(NAMED_KEY)
            },
        },
{
    let builder = match entity {
        Ok(b) => b,
        Err(e) => {
            return Err(e);
        },
    };
    builder.insert_component(NAMED_KEY, "Named".to_owned(), Component::Named(Named::new(name)))
}

/// Attach a display name and an empty diagnostic inbox. An
/// already-failed chain passes its error through untouched.
pub fn debugged(entity: BuilderResult, name: String) -> (r: BuilderResult)
    requires
        entity matches Ok(b) ==> b.wf(),
    ensures
        match r {
            Ok(b) => {
                &&& entity matches Ok(b0) && {
                    &&& !b0.components_spec().spec_has(NAMED_KEY)
                    &&& !b0.components_spec().spec_has(DEBUG_KEY)
                    &&& forall|k: i64|
                        k != NAMED_KEY && k != DEBUG_KEY ==> (
                        #[trigger] b.components_spec().spec_has(k))
                            == b0.components_spec().spec_has(k)
                    &&& forall|x: i64|
                        b.archetype_spec()@.contains(x) <==> (b0.archetype_spec()@.contains(x)
                            || x == NAMED_KEY || x == DEBUG_KEY)
                }
                &&& b.wf()
                &&& b.components_spec().spec_has(NAMED_KEY)
                &&& (b.components_spec().spec_value(NAMED_KEY) matches Component::Named(n)
                    && n.name == name)
                &&& b.components_spec().spec_has(DEBUG_KEY)
                &&& (b.components_spec().spec_value(DEBUG_KEY) matches Component::Debug(d)
                    && d.wf() && d.max_level_spec() == DebugLevel::Silent
                    && d.messages_spec().len() == 0)
            },
            Err(e) => {
                ||| entity matches Err(e0) && e == e0
                ||| entity matches Ok(b0) && e == ECSError::DataAlreadyExists && (
                b0.components_spec().spec_has(NAMED_KEY) || b0.components_spec().spec_has(
                    DEBUG_KEY,
                ))
            },
        },
{
    let with_name = match named(entity, name) {
        Ok(b) => b,
        Err(e) => {
            return Err(e);
        },
    };
    with_name.insert_component(DEBUG_KEY, "Debug".to_owned(), Component::Debug(crate::components::Debug::new()))
}

/// Attach a position component. An already-failed chain passes its error
/// through untouched.
pub fn positioned(entity: BuilderResult, x: i32, y: i32, priority: u8) -> (r: BuilderResult)
    requires
        entity matches Ok(b) ==> b.wf(),
    ensures
        match r {
            Ok(b) => {
                &&& entity matches Ok(b0) && {
                    &&& !b0.components_spec().spec_has(POSITION_KEY)
                    &&& b0.components_spec().agrees_except(&b.components_spec(), POSITION_KEY)
                    &&& forall|k: i64|
                        b.archetype_spec()@.contains(k) <==> (b0.archetype_spec()@.contains(k)
                            || k == POSITION_KEY)
                }
                &&& b.wf()
                &&& b.components_spec().spec_has(POSITION_KEY)
                &&& (b.components_spec().spec_value(POSITION_KEY) matches Component::Position(p)
                    && p.coords_spec().x == x && p.coords_spec().y == y && p.priority_spec()
                    == priority)
            },
            Err(e) => {
                ||| entity matches Err(e0) && e == e0
                ||| entity matches Ok(b0) && e == ECSError::DataAlreadyExists
                    && b0.components_spec().spec_has(POSITION_KEY)
            },
        },
{
    let builder = match entity {
        Ok(b) => b,
        Err(e) => {
            return Err(e);
        },
    };
    builder.insert_component(
        POSITION_KEY,
        "Position".to_owned(),
        Component::Position(Position::new(x, y, priority)),
    )
}

/// Assemble the player entity: named, carrying a diagnostic inbox,
/// positioned at the given tile with top drawing priority, and tagged as
/// camera and player. An already-failed chain passes its error through
/// untouched.
pub fn player(entity: BuilderResult, name: String, x: i32, y: i32) -> (r: BuilderResult)
    requires
        entity matches Ok(b) ==> b.wf(),
    ensures
        match r {
            Ok(b) => {
                &&& entity matches Ok(b0) && {
                    &&& !b0.components_spec().spec_has(NAMED_KEY)
                    &&& !b0.components_spec().spec_has(DEBUG_KEY)
                    &&& !b0.components_spec().spec_has(POSITION_KEY)
                    &&& !b0.components_spec().spec_has(CAMERA_KEY)
                    &&& !b0.components_spec().spec_has(PLAYER_KEY)
                    &&& forall|k: i64|
                        k != NAMED_KEY && k != DEBUG_KEY && k != POSITION_KEY && k != CAMERA_KEY
                            && k != PLAYER_KEY ==> (#[trigger] b.components_spec().spec_has(k))
                            == b0.components_spec().spec_has(k)
                    &&& forall|t: i64|
                        b.archetype_spec()@.contains(t) <==> (b0.archetype_spec()@.contains(t)
                            || t == NAMED_KEY || t == DEBUG_KEY || t == POSITION_KEY || t
                            == CAMERA_KEY || t == PLAYER_KEY)
                }
                &&& b.wf()
                &&& (b.components_spec().spec_value(NAMED_KEY) matches Component::Named(n)
                    && n.name == name)
                &&& (b.components_spec().spec_value(DEBUG_KEY) matches Component::Debug(d)
                    && d.wf() && d.max_level_spec() == DebugLevel::Silent
                    && d.messages_spec().len() == 0)
                &&& (b.components_spec().spec_value(POSITION_KEY) matches Component::Position(p)
                    && p.coords_spec().x == x && p.coords_spec().y == y && p.priority_spec()
                    == 255)
                &&& (b.components_spec().spec_value(CAMERA_KEY) matches Component::Camera(_))
                &&& (b.components_spec().spec_value(PLAYER_KEY) matches Component::Player(_))
            },
            Err(e) => {
                ||| entity matches Err(e0) && e == e0
                ||| entity matches Ok(b0) && e == ECSError::DataAlreadyExists && (
                b0.components_spec().spec_has(NAMED_KEY) || b0.components_spec().spec_has(
                    DEBUG_KEY,
                ) || b0.components_spec().spec_has(POSITION_KEY)
                    || b0.components_spec().spec_has(CAMERA_KEY)
                    || b0.components_spec().spec_has(PLAYER_KEY))
            },
        },
{
    let placed = match positioned(debugged(entity, name), x, y, 255) {
        Ok(b) => b,
        Err(e) => {
            return Err(e);
        },
    };
    let with_camera = match placed.insert_component(
        CAMERA_KEY,
        "Camera".to_owned(),
        Component::Camera(Camera::new()),
    ) {
        Ok(b) => b,
        Err(e) => {
            return Err(e);
        },
    };
    with_camera.insert_component(
        PLAYER_KEY,
        "Player".to_owned(),
        Component::Player(Player::new()),
    )
}

/// Remembers the identities of singular entities, the player above all.
pub struct KeyEntities {
    player: Option<EntityId>,
}

impl KeyEntities {
    /// The player's identity, once recorded.
    pub closed spec fn player_spec(&self) -> Option<EntityId> {
        self.player
    }

    pub fn new() -> (r: Self)
        ensures
            r.player_spec() is None,
    {
        KeyEntities { player: None }
    }

    /// Record the player entity, exactly once; the entity must already
    /// carry its identity.
    pub fn set_player<V>(&mut self, player: &Entity<V>)
        requires
            old(self).player_spec() is None,
            player.id_spec() is Some,
        ensures
            final(self).player_spec() matches Some(s) && (player.id_spec() matches Some(orig)
                && s.index_spec() == orig.index_spec() && s.archetype_spec()@
                == orig.archetype_spec()@ && (orig.wf() ==> s.wf())),
    {
        match player.id() {
            Some(id) => {
                self.player = Some(id.clone());
            },
            None => {},
        }
        proof {
            let orig = player.id_spec()->Some_0;
            match &self.player {
                Some(stored) => {
                    assert(stored.index_spec() == orig.index_spec());
                    assert(stored.archetype_spec()@ == orig.archetype_spec()@);
                },
                None => {},
            }
        }
    }

    /// Resolve the recorded player in the world, if one was recorded and
    /// its slot is still filled.
    pub fn player<'a, V, S>(&self, world: &'a World<V, S>) -> (r: Option<&'a Entity<V>>)
        requires
            world.wf(),
        ensures
            match self.player_spec() {
                Some(id) => match r {
                    Some(e) => world.spec_get(id) == Some(*e),
                    None => world.spec_get(id) is None,
                },
                None => r is None,
            },
    {
        match &self.player {
            Some(id) => world.get(id),
            None => None,
        }
    }
}

} // verus!
