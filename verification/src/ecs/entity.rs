use vstd::prelude::*;

verus! {

use crate::TypeKey;
use crate::ecs::ECSError;
use crate::ecs::archetype::Archetype;
use crate::ecs::dynamic_storage::{DynamicStore, ReferenceState};

/// An entity's identity: the archetype partition it lives in and its slot
/// index within that partition.
#[derive(Debug)]
pub struct EntityId {
    index: usize,
    archetype: Archetype,
}

impl EntityId {
    /// The slot index within the partition.
    pub closed spec fn index_spec(&self) -> usize {
        self.index
    }

    /// The archetype naming the partition.
    pub closed spec fn archetype_spec(&self) -> Archetype {
        self.archetype
    }

    pub open spec fn wf(&self) -> bool {
        self.archetype_spec().wf()
    }

    pub fn new(archetype: Archetype, index: usize) -> (r: Self)
        ensures
            r.index_spec() == index,
            r.archetype_spec() == archetype,
    {
        EntityId { index, archetype }
    }

    pub fn index(&self) -> (r: usize)
        ensures
            r == self.index_spec(),
    {
        self.index
    }

    pub fn archetype(&self) -> (r: &Archetype)
        ensures
            *r == self.archetype_spec(),
    {
        &self.archetype
    }
}

impl Clone for EntityId {
    fn clone(&self) -> (r: Self)
        ensures
            r.index_spec() == self.index_spec(),
            r.archetype_spec()@ == self.archetype_spec()@,
            r.archetype_spec().names_seq().len() == self.archetype_spec().names_seq().len(),
            self.wf() ==> r.wf(),
    {
        EntityId { index: self.index, archetype: self.archetype.clone() }
    }
}

impl PartialEq for EntityId {
    fn eq(&self, other: &Self) -> (r: bool) {
        self.index == other.index && self.archetype == other.archetype
    }
}

impl Eq for EntityId {
}

impl vstd::std_specs::cmp::PartialEqSpecImpl for EntityId {
    open spec fn obeys_eq_spec() -> bool {
        true
    }

    open spec fn eq_spec(&self, other: &Self) -> bool {
        self.index_spec() == other.index_spec() && self.archetype_spec()@
            == other.archetype_spec()@
    }
}

/// Accumulates components for an entity under construction. Building is
/// fail-fast: the first rejected component aborts a chain, and the entity
/// then simply lacks that component.
pub struct EntityBuilder<V> {
    components: DynamicStore<V>,
    archetype: Archetype,
}

impl<V> EntityBuilder<V> {
    /// The components accumulated so far, by type key.
    pub closed spec fn components_spec(&self) -> DynamicStore<V> {
        self.components
    }

    /// The archetype accumulated so far.
    pub closed spec fn archetype_spec(&self) -> Archetype {
        self.archetype
    }

    /// The builder's invariant: the archetype holds exactly the component
    /// keys, every cell gate idle.
    pub open spec fn wf(&self) -> bool {
        &&& self.components_spec().wf()
        &&& self.archetype_spec().wf()
        &&& forall|k: i64|
            self.archetype_spec()@.contains(k) <==> (#[trigger] self.components_spec().spec_has(
                k,
            ))
        &&& forall|k: i64|
            (#[trigger] self.components_spec().spec_has(k)) ==> self.components_spec().spec_state(
                k,
            ) == ReferenceState::Idle
    }

    /// Attach one component under its type key, recording a display name
    /// for the type. A second component of the same key is rejected and
    /// the builder is handed back unchanged.
    pub fn insert_component(self, key: TypeKey, name: String, component: V) -> (r: Result<
        Self,
        ECSError,
    >)
        requires
            self.wf(),
        ensures
            match r {
                Ok(b) => {
                    &&& !self.components_spec().spec_has(key)
                    &&& b.wf()
                    &&& b.components_spec().spec_has(key)
                    &&& b.components_spec().spec_value(key) == component
                    &&& self.components_spec().agrees_except(&b.components_spec(), key)
                    &&& forall|x: i64|
                        b.archetype_spec()@.contains(x) <==> (self.archetype_spec()@.contains(x)
                            || x == key)
                },
                Err(e) => {
                    &&& e == ECSError::DataAlreadyExists
                    &&& self.components_spec().spec_has(key)
                },
            },
    {
        let EntityBuilder { mut components, mut archetype } = self;
        match components.insert(key, component) {
            Ok(()) => {
                archetype.add_type_id(key, name);
                Ok(EntityBuilder { components, archetype })
            },
            Err(e) => Err(e),
        }
    }

    /// Freeze the accumulated components into an entity, not yet owned by
    /// any world and so without an id.
    pub fn build(self) -> (r: Entity<V>)
        requires
            self.wf(),
        ensures
            r.wf(),
            r.id_spec() is None,
            r.components_spec() == self.components_spec(),
            r.archetype_spec() == self.archetype_spec(),
    {
        Entity { id: None, components: self.components, archetype: self.archetype }
    }
}

/// A built entity: its optional identity, its components, and the
/// archetype naming its component-type set.
pub struct Entity<V> {
    id: Option<EntityId>,
    components: DynamicStore<V>,
    archetype: Archetype,
}

impl<V> Entity<V> {
    /// The entity's identity, once a world has assigned one.
    pub closed spec fn id_spec(&self) -> Option<EntityId> {
        self.id
    }

    /// The entity's component store.
    pub closed spec fn components_spec(&self) -> DynamicStore<V> {
        self.components
    }

    /// The archetype naming the entity's component-type set.
    pub closed spec fn archetype_spec(&self) -> Archetype {
        self.archetype
    }

    /// The entity's invariant: the archetype holds exactly the component
    /// keys.
    pub open spec fn wf(&self) -> bool {
        &&& self.components_spec().wf()
        &&& self.archetype_spec().wf()
        &&& forall|k: i64|
            self.archetype_spec()@.contains(k) <==> (#[trigger] self.components_spec().spec_has(
                k,
            ))
        &&& (self.id_spec() matches Some(i) ==> i.wf())
    }

    /// Start building a fresh entity with no components.
    pub fn new() -> (r: EntityBuilder<V>)
        ensures
            r.wf(),
            forall|k: i64| !r.components_spec().spec_has(k),
            r.archetype_spec()@ == Seq::<i64>::empty(),
    {
        EntityBuilder { components: DynamicStore::new(), archetype: Archetype::new() }
    }

    /// Attach one more component to an entity no world owns yet. Rejected
    /// with the store unchanged when the key is already present, and on an
    /// entity that already carries an id, whose composition is fixed.
    pub fn insert_component(&mut self, key: TypeKey, name: String, component: V) -> (r: Result<
        (),
        ECSError,
    >)
        requires
            old(self).wf(),
        ensures
            final(self).wf(),
            final(self).id_spec() == old(self).id_spec(),
            match r {
                Ok(()) => {
                    &&& old(self).id_spec() is None
                    &&& !old(self).components_spec().spec_has(key)
                    &&& final(self).components_spec().spec_has(key)
                    &&& final(self).components_spec().spec_value(key) == component
                    &&& old(self).components_spec().agrees_except(
                        &final(self).components_spec(),
                        key,
                    )
                    &&& forall|x: i64|
                        final(self).archetype_spec()@.contains(x) <==> (old(
                            self,
                        ).archetype_spec()@.contains(x) || x == key)
                },
                Err(e) => {
                    &&& *final(self) == *old(self)
                    &&& (e == ECSError::AlreadyInserted <==> old(self).id_spec() is Some)
                    &&& (e == ECSError::DataAlreadyExists <==> old(self).id_spec() is None && old(
                        self,
                    ).components_spec().spec_has(key))
                },
            },
    {
        if self.id.is_some() {
            return Err(ECSError::AlreadyInserted);
        }
        match self.components.insert(key, component) {
            Ok(()) => {
                self.archetype.add_type_id(key, name);
                Ok(())
            },
            Err(e) => Err(e),
        }
    }

    /// Whether a component of this type key is attached; takes no access.
    pub fn has_component(&self, key: TypeKey) -> (r: bool)
        requires
            self.wf(),
        ensures
            r == self.components_spec().spec_has(key),
    {
        self.components.has(key)
    }

    /// Whether a component of this type key is attached; takes no access.
    pub fn has_component_type_id(&self, type_id: &TypeKey) -> (r: bool)
        requires
            self.wf(),
        ensures
            r == self.components_spec().spec_has(*type_id),
    {
        self.components.has_type_id(type_id)
    }

    /// Acquire a shared access to the component of this type key and read
    /// it; hand it back with `release_component`.
    pub fn get_component(&mut self, key: TypeKey) -> (r: Result<&V, ECSError>)
        requires
            old(self).wf(),
        ensures
            final(self).wf(),
            final(self).id_spec() == old(self).id_spec(),
            final(self).archetype_spec() == old(self).archetype_spec(),
            match r {
                Ok(v) => {
                    &&& old(self).components_spec().spec_has(key)
                    &&& *v == old(self).components_spec().spec_value(key)
                    &&& final(self).components_spec().spec_value(key) == old(
                        self,
                    ).components_spec().spec_value(key)
                    &&& Some(final(self).components_spec().spec_state(key)) == old(
                        self,
                    ).components_spec().spec_state(key).incremented()
                    &&& old(self).components_spec().agrees_except(
                        &final(self).components_spec(),
                        key,
                    )
                },
                Err(e) => {
                    &&& old(self).components_spec().agrees(&final(self).components_spec())
                    &&& (e == ECSError::CouldNotRetrieve <==> !old(
                        self,
                    ).components_spec().spec_has(key))
                    &&& (e == ECSError::BorrowConflict <==> old(self).components_spec().spec_has(
                        key,
                    ) && old(self).components_spec().spec_state(key).incremented() is None)
                    &&& (e == ECSError::CouldNotRetrieve || e == ECSError::BorrowConflict)
                },
            },
    {
        self.components.get(key)
    }

    /// Acquire the exclusive access to the component of this type key and
    /// get it to write through; hand it back with `release_component_mut`.
    pub fn get_component_mut(&mut self, key: TypeKey) -> (r: Result<&mut V, ECSError>)
        requires
            old(self).wf(),
        ensures
            final(self).wf(),
            final(self).id_spec() == old(self).id_spec(),
            final(self).archetype_spec() == old(self).archetype_spec(),
            match r {
                Ok(v) => {
                    &&& old(self).components_spec().spec_has(key)
                    &&& final(self).components_spec().spec_has(key)
                    &&& old(self).components_spec().spec_state(key) == ReferenceState::Idle
                    &&& *v == old(self).components_spec().spec_value(key)
                    &&& final(self).components_spec().spec_value(key) == *final(v)
                    &&& final(self).components_spec().spec_state(key)
                        == ReferenceState::Exclusive
                    &&& old(self).components_spec().agrees_except(
                        &final(self).components_spec(),
                        key,
                    )
                },
                Err(e) => {
                    &&& old(self).components_spec().agrees(&final(self).components_spec())
                    &&& (e == ECSError::CouldNotRetrieve <==> !old(
                        self,
                    ).components_spec().spec_has(key))
                    &&& (e == ECSError::BorrowConflict <==> old(self).components_spec().spec_has(
                        key,
                    ) && old(self).components_spec().spec_state(key) != ReferenceState::Idle)
                    &&& (e == ECSError::CouldNotRetrieve || e == ECSError::BorrowConflict)
                },
            },
    {
        self.components.get_mut(key)
    }

    /// Give one shared access to the component of this type key back.
    pub fn release_component(&mut self, key: TypeKey) -> (r: Result<(), ECSError>)
        requires
            old(self).wf(),
        ensures
            final(self).wf(),
            final(self).id_spec() == old(self).id_spec(),
            final(self).archetype_spec() == old(self).archetype_spec(),
            match r {
                Ok(()) => {
                    &&& old(self).components_spec().spec_has(key)
                    &&& final(self).components_spec().spec_has(key)
                    &&& final(self).components_spec().spec_value(key) == old(
                        self,
                    ).components_spec().spec_value(key)
                    &&& Some(final(self).components_spec().spec_state(key)) == old(
                        self,
                    ).components_spec().spec_state(key).decremented()
                    &&& old(self).components_spec().agrees_except(
                        &final(self).components_spec(),
                        key,
                    )
                },
                Err(e) => {
                    &&& old(self).components_spec().agrees(&final(self).components_spec())
                    &&& (e == ECSError::CouldNotRetrieve <==> !old(
                        self,
                    ).components_spec().spec_has(key))
                    &&& (e == ECSError::BorrowConflict <==> old(self).components_spec().spec_has(
                        key,
                    ) && old(self).components_spec().spec_state(key).decremented() is None)
                    &&& (e == ECSError::CouldNotRetrieve || e == ECSError::BorrowConflict)
                },
            },
    {
        self.components.release(key)
    }

    /// Give the exclusive access to the component of this type key back.
    pub fn release_component_mut(&mut self, key: TypeKey) -> (r: Result<(), ECSError>)
        requires
            old(self).wf(),
        ensures
            final(self).wf(),
            final(self).id_spec() == old(self).id_spec(),
            final(self).archetype_spec() == old(self).archetype_spec(),
            match r {
                Ok(()) => {
                    &&& old(self).components_spec().spec_has(key)
                    &&& final(self).components_spec().spec_has(key)
                    &&& old(self).components_spec().spec_state(key)
                        == ReferenceState::Exclusive
                    &&& final(self).components_spec().spec_value(key) == old(
                        self,
                    ).components_spec().spec_value(key)
                    &&& final(self).components_spec().spec_state(key) == ReferenceState::Idle
                    &&& old(self).components_spec().agrees_except(
                        &final(self).components_spec(),
                        key,
                    )
                },
                Err(e) => {
                    &&& old(self).components_spec().agrees(&final(self).components_spec())
                    &&& (e == ECSError::CouldNotRetrieve <==> !old(
                        self,
                    ).components_spec().spec_has(key))
                    &&& (e == ECSError::BorrowConflict <==> old(self).components_spec().spec_has(
                        key,
                    ) && old(self).components_spec().spec_state(key)
                        != ReferenceState::Exclusive)
                    &&& (e == ECSError::CouldNotRetrieve || e == ECSError::BorrowConflict)
                },
            },
    {
        self.components.release_mut(key)
    }

    /// Assign the entity its identity; an entity can be inserted into a
    /// world only once.
    pub(crate) fn try_set_id(&mut self, id: EntityId) -> (r: Result<(), ECSError>)
        ensures
            match r {
                Ok(()) => {
                    &&& old(self).id_spec() is None
                    &&& final(self).id_spec() == Some(id)
                    &&& final(self).components_spec() == old(self).components_spec()
                    &&& final(self).archetype_spec() == old(self).archetype_spec()
                },
                Err(e) => {
                    &&& e == ECSError::AlreadyInserted
                    &&& old(self).id_spec() is Some
                    &&& *final(self) == *old(self)
                },
            },
    {
        match self.id {
            Some(_) => Err(ECSError::AlreadyInserted),
            None => {
                self.id = Some(id);
                Ok(())
            },
        }
    }

    /// The entity's identity, if a world has assigned one.
    pub fn id(&self) -> (r: Option<&EntityId>)
        ensures
            match r {
                Some(i) => self.id_spec() == Some(*i),
                None => self.id_spec() is None,
            },
    {
        self.id.as_ref()
    }

    /// The archetype naming the entity's component-type set.
    pub fn archetype(&self) -> (r: &Archetype)
        ensures
            *r == self.archetype_spec(),
    {
        &self.archetype
    }
}

} // verus!
