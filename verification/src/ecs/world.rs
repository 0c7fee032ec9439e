use vstd::prelude::*;

verus! {

use crate::TypeKey;
use crate::ecs::ECSError;
use crate::ecs::archetype::Archetype;
use crate::ecs::dynamic_storage::{DynamicStore, ReferenceState};
use crate::ecs::entity::{Entity, EntityBuilder, EntityId};
use crate::ecs::query::Query;
use crate::ecs::system::System;

/// One stored entity slot is well formed: a filled slot holds a well
/// formed entity whose archetype and identity name exactly this partition
/// and this position.
pub open spec fn slot_wf<V>(types: Seq<i64>, slots: Seq<Option<Entity<V>>>, n: int) -> bool {
    slots[n] matches Some(e) ==> {
        &&& e.wf()
        &&& e.archetype_spec()@ == types
        &&& e.id_spec() matches Some(id) && id.index_spec() == n && id.archetype_spec()@ == types
    }
}

/// A partition is well formed: its archetype is well formed and every
/// filled slot belongs here.
pub open spec fn partition_wf<V>(archetype: Archetype, slots: Seq<Option<Entity<V>>>) -> bool {
    &&& archetype.wf()
    &&& forall|n: int| 0 <= n < slots.len() ==> slot_wf(archetype@, slots, n)
}

/// No two partitions share a type-key set.
pub open spec fn parts_distinct<V>(parts: Seq<(Archetype, Vec<Option<Entity<V>>>)>) -> bool {
    forall|i: int, j: int|
        0 <= i < j < parts.len() ==> (#[trigger] parts[i]).0@ != (#[trigger] parts[j]).0@
}

/// The partition list is well formed: each partition is, and no two
/// partitions share a type-key set.
pub open spec fn parts_wf<V>(parts: Seq<(Archetype, Vec<Option<Entity<V>>>)>) -> bool {
    &&& forall|i: int|
        0 <= i < parts.len() ==> partition_wf((#[trigger] parts[i]).0, parts[i].1@)
    &&& parts_distinct(parts)
}

/// Whether some partition is keyed by this type-key set.
pub open spec fn has_part<V>(parts: Seq<(Archetype, Vec<Option<Entity<V>>>)>, types: Seq<i64>) -> bool {
    exists|i: int| 0 <= i < parts.len() && parts[i].0@ == types
}

/// The index of the partition keyed by this type-key set; meaningful when
/// partitions are distinct and one matches.
pub open spec fn part_index<V>(parts: Seq<(Archetype, Vec<Option<Entity<V>>>)>, types: Seq<i64>) -> int {
    choose|i: int| 0 <= i < parts.len() && parts[i].0@ == types
}

/// The system list is sorted by descending priority.
pub open spec fn systems_sorted<S>(systems: Seq<(S, i32)>) -> bool {
    forall|i: int, j: int|
        0 <= i < j < systems.len() ==> (#[trigger] systems[i]).1 >= (#[trigger] systems[j]).1
}

/// Where a new registration of this priority lands: after every system
/// whose priority is at least as high, before the first strictly lower
/// one, so that equal priorities keep registration order.
pub open spec fn insertion_point<S>(systems: Seq<(S, i32)>, priority: i32) -> int
    decreases systems.len(),
{
    if systems.len() == 0 {
        0
    } else if systems[0].1 >= priority {
        1 + insertion_point(systems.drop_first(), priority)
    } else {
        0
    }
}

/// With distinct partitions, a partition keyed by `types` is the one
/// `part_index` names.
proof fn lemma_part_index_is<V>(
    parts: Seq<(Archetype, Vec<Option<Entity<V>>>)>,
    types: Seq<i64>,
    i: int,
)
    requires
        parts_distinct(parts),
        0 <= i < parts.len(),
        parts[i].0@ == types,
    ensures
        has_part(parts, types),
        part_index(parts, types) == i,
{
    assert(has_part(parts, types));
    let j = part_index(parts, types);
    assert(0 <= j < parts.len() && parts[j].0@ == types);
    if i < j {
        assert(parts[i].0@ != parts[j].0@);
    }
    if j < i {
        assert(parts[j].0@ != parts[i].0@);
    }
}

/// Replacing one partition's slots, archetype kept, leaves every other
/// type-key set's partition, and which sets have one, as they were.
proof fn lemma_part_update<V>(
    a: Seq<(Archetype, Vec<Option<Entity<V>>>)>,
    b: Seq<(Archetype, Vec<Option<Entity<V>>>)>,
    idx: int,
)
    requires
        0 <= idx < a.len(),
        b == a.update(idx, (a[idx].0, b[idx].1)),
        parts_wf(a),
    ensures
        partition_wf(a[idx].0, b[idx].1@) ==> parts_wf(b),
        forall|t: Seq<i64>| has_part(b, t) == has_part(a, t),
        forall|t: Seq<i64>| #[trigger] has_part(a, t) ==> part_index(b, t) == part_index(a, t),
        forall|t: Seq<i64>|
            has_part(a, t) && t != a[idx].0@ ==> b[part_index(a, t)] == a[part_index(a, t)],
        part_index(a, a[idx].0@) == idx,
{
    assert(b.len() == a.len());
    assert(forall|i: int| 0 <= i < a.len() ==> (#[trigger] b[i]).0 == a[i].0);
    assert(parts_distinct(b));
    if partition_wf(a[idx].0, b[idx].1@) {
        assert(parts_wf(b)) by {
            assert(forall|i: int| 0 <= i < b.len() && i != idx ==> #[trigger] b[i] == a[i]);
            assert(partition_wf(b[idx].0, b[idx].1@));
        }
    }
    assert(forall|t: Seq<i64>| #[trigger] has_part(a, t) ==> has_part(b, t)) by {
        assert(forall|i: int| 0 <= i < a.len() ==> b[i].0@ == (#[trigger] a[i]).0@);
    }
    assert(forall|t: Seq<i64>| #[trigger] has_part(b, t) ==> has_part(a, t)) by {
        assert(forall|i: int| 0 <= i < b.len() ==> a[i].0@ == (#[trigger] b[i]).0@);
    }
    lemma_part_index_is(a, a[idx].0@, idx);
    assert forall|t: Seq<i64>| #[trigger] has_part(a, t) implies part_index(b, t) == part_index(
        a,
        t,
    ) by {
        let i = part_index(a, t);
        assert(0 <= i < a.len() && a[i].0@ == t);
        lemma_part_index_is(b, t, i);
    }
    assert forall|t: Seq<i64>| has_part(a, t) && t != a[idx].0@ implies b[part_index(a, t)]
        == a[part_index(a, t)] by {
        let i = part_index(a, t);
        if i == idx {
            assert(t == a[idx].0@);
        }
    }
}

/// Appending a partition with a fresh type-key set leaves every old
/// partition as it was and adds exactly the new set.
proof fn lemma_part_push<V>(
    a: Seq<(Archetype, Vec<Option<Entity<V>>>)>,
    entry: (Archetype, Vec<Option<Entity<V>>>),
)
    requires
        parts_wf(a),
        !has_part(a, entry.0@),
        partition_wf(entry.0, entry.1@),
    ensures
        parts_wf(a.push(entry)),
        has_part(a.push(entry), entry.0@),
        part_index(a.push(entry), entry.0@) == a.len(),
        forall|t: Seq<i64>| t != entry.0@ ==> has_part(a.push(entry), t) == has_part(a, t),
        forall|t: Seq<i64>| #[trigger] has_part(a, t) ==> part_index(a.push(entry), t)
            == part_index(a, t) && a.push(entry)[part_index(a, t)] == a[part_index(a, t)],
{
    let b = a.push(entry);
    assert(forall|i: int| 0 <= i < a.len() ==> #[trigger] b[i] == a[i]);
    assert(b[a.len() as int] == entry);
    assert(parts_wf(b)) by {
        assert forall|i: int, j: int| 0 <= i < j < b.len() implies (#[trigger] b[i]).0@ != (
        #[trigger] b[j]).0@ by {
            if j == a.len() {
                if b[i].0@ == entry.0@ {
                    assert(has_part(a, entry.0@));
                }
            }
        }
    }
    lemma_part_index_is(b, entry.0@, a.len() as int);
    assert forall|t: Seq<i64>| t != entry.0@ && #[trigger] has_part(b, t) implies has_part(
        a,
        t,
    ) by {
        let i = part_index(b, t);
        assert(0 <= i < b.len() && b[i].0@ == t);
        assert(i != a.len());
        assert(a[i].0@ == t);
    }
    assert forall|t: Seq<i64>| #[trigger] has_part(a, t) implies part_index(b, t) == part_index(
        a,
        t,
    ) && b[part_index(a, t)] == a[part_index(a, t)] by {
        let i = part_index(a, t);
        assert(0 <= i < a.len() && a[i].0@ == t);
        lemma_part_index_is(b, t, i);
    }
}

/// The entities of the filled slots, in slot order.
pub open spec fn live_of<V>(slots: Seq<Option<Entity<V>>>) -> Seq<Entity<V>>
    decreases slots.len(),
{
    if slots.len() == 0 {
        Seq::empty()
    } else {
        live_of(slots.drop_last()) + (match slots.last() {
            Some(e) => seq![e],
            None => Seq::empty(),
        })
    }
}

/// The entities of every filled slot across every partition, partition
/// order outside, slot order inside.
pub open spec fn all_live_of<V>(parts: Seq<(Archetype, Vec<Option<Entity<V>>>)>) -> Seq<
    Entity<V>,
>
    decreases parts.len(),
{
    if parts.len() == 0 {
        Seq::empty()
    } else {
        all_live_of(parts.drop_last()) + live_of(parts.last().1@)
    }
}

/// The entities of every filled slot in every partition the query
/// matches, partition order outside, slot order inside.
pub open spec fn query_live_of<V>(
    parts: Seq<(Archetype, Vec<Option<Entity<V>>>)>,
    query: &Query,
) -> Seq<Entity<V>>
    decreases parts.len(),
{
    if parts.len() == 0 {
        Seq::empty()
    } else {
        query_live_of(parts.drop_last(), query) + (if query.spec_matches(parts.last().0@) {
            live_of(parts.last().1@)
        } else {
            Seq::empty()
        })
    }
}

/// Owns every entity, partitioned by archetype; the registered systems in
/// priority order; and the world's singleton resources.
pub struct World<V, S> {
    entities: Vec<(Archetype, Vec<Option<Entity<V>>>)>,
    systems: Vec<(S, i32)>,
    resources: DynamicStore<V>,
}

impl<V, S> World<V, S> {
    /// The archetype partitions, in the order they were first used.
    pub closed spec fn partitions_spec(&self) -> Seq<(Archetype, Vec<Option<Entity<V>>>)> {
        self.entities@
    }

    /// The registered systems with their priorities, execution order.
    pub closed spec fn systems_spec(&self) -> Seq<(S, i32)> {
        self.systems@
    }

    /// The world's resource store.
    pub closed spec fn resources_spec(&self) -> DynamicStore<V> {
        self.resources
    }

    /// The world's invariant: partitions well formed and distinct, the
    /// system list sorted by descending priority, the resources well
    /// formed.
    pub open spec fn wf(&self) -> bool {
        &&& parts_wf(self.partitions_spec())
        &&& systems_sorted(self.systems_spec())
        &&& self.resources_spec().wf()
    }

    /// Whether some partition is keyed by this type-key set.
    pub open spec fn spec_has_partition(&self, types: Seq<i64>) -> bool {
        has_part(self.partitions_spec(), types)
    }

    /// The slot sequence of the partition keyed by this type-key set.
    pub open spec fn spec_partition(&self, types: Seq<i64>) -> Seq<Option<Entity<V>>> {
        self.partitions_spec()[part_index(self.partitions_spec(), types)].1@
    }

    /// What an identity resolves to: the entity in its slot, or nothing
    /// once the slot is cleared or was never filled.
    pub open spec fn spec_get(&self, id: EntityId) -> Option<Entity<V>> {
        if self.spec_has_partition(id.archetype_spec()@) && (id.index_spec() as int)
            < self.spec_partition(id.archetype_spec()@).len() {
            self.spec_partition(id.archetype_spec()@)[id.index_spec() as int]
        } else {
            None
        }
    }

    pub fn new() -> (r: Self)
        ensures
            r.wf(),
            r.partitions_spec() == Seq::<(Archetype, Vec<Option<Entity<V>>>)>::empty(),
            r.systems_spec() == Seq::<(S, i32)>::empty(),
            forall|k: i64| !r.resources_spec().spec_has(k),
    {
        World { entities: Vec::new(), systems: Vec::new(), resources: DynamicStore::new() }
    }

    /// Start building an entity for this world.
    pub fn spawn(&self) -> (r: EntityBuilder<V>)
        ensures
            r.wf(),
            forall|k: i64| !r.components_spec().spec_has(k),
            r.archetype_spec()@ == Seq::<i64>::empty(),
    {
        Entity::new()
    }

    /// The index of the partition keyed like `archetype`, if any.
    fn find_partition(&self, archetype: &Archetype) -> (r: Option<usize>)
        requires
            self.wf(),
        ensures
            match r {
                Some(i) => {
                    &&& i < self.partitions_spec().len()
                    &&& self.partitions_spec()[i as int].0@ == archetype@
                    &&& self.spec_has_partition(archetype@)
                    &&& part_index(self.partitions_spec(), archetype@) == i
                },
                None => !self.spec_has_partition(archetype@),
            },
    {
        let mut i: usize = 0;

        while i < self.entities.len()
            invariant
                self.wf(),
                i <= self.entities@.len(),
                forall|m: int| 0 <= m < i ==> (#[trigger] self.entities@[m]).0@ != archetype@,
            decreases self.entities@.len() - i,
        {
            let candidate = &self.entities[i].0;
            if candidate == archetype {
                proof {
                    lemma_part_index_is(self.entities@, archetype@, i as int);
                }
                return Some(i);
            }
            i += 1;
        }
        proof {
            if self.spec_has_partition(archetype@) {
                let w = choose|w: int|
                    0 <= w < self.entities@.len() && self.entities@[w].0@ == archetype@;
            }
        }
        None
    }

    /// Take an entity in: compute its partition from its archetype, append
    /// it at the end of that partition's slots, and hand back the identity
    /// assigned to it. An entity that already carries an identity is
    /// refused and nothing changes.
    pub fn insert(&mut self, entity: Entity<V>) -> (r: Result<EntityId, ECSError>)
        requires
            old(self).wf(),
            entity.wf(),
        ensures
            final(self).wf(),
            final(self).systems_spec() == old(self).systems_spec(),
            final(self).resources_spec() == old(self).resources_spec(),
            match r {
                Ok(id) => {
                    &&& entity.id_spec() is None
                    &&& id.wf()
                    &&& id.archetype_spec()@ == entity.archetype_spec()@
                    &&& id.index_spec() as int == (if old(self).spec_has_partition(
                        entity.archetype_spec()@,
                    ) {
                        old(self).spec_partition(entity.archetype_spec()@).len() as int
                    } else {
                        0
                    })
                    &&& final(self).spec_has_partition(entity.archetype_spec()@)
                    &&& final(self).spec_partition(entity.archetype_spec()@).len()
                        == id.index_spec() + 1
                    &&& (final(self).spec_get(id) matches Some(e) && e.wf()
                        && e.components_spec() == entity.components_spec()
                        && e.archetype_spec()@ == entity.archetype_spec()@ && (
                    e.id_spec() matches Some(s) && s.index_spec() == id.index_spec()
                        && s.archetype_spec()@ == id.archetype_spec()@))
                    &&& forall|n: int|
                        0 <= n < id.index_spec() ==> final(self).spec_partition(
                            entity.archetype_spec()@,
                        )[n] == old(self).spec_partition(entity.archetype_spec()@)[n]
                    &&& forall|t: Seq<i64>|
                        t != entity.archetype_spec()@ ==> final(self).spec_has_partition(t)
                            == old(self).spec_has_partition(t)
                    &&& forall|t: Seq<i64>|
                        t != entity.archetype_spec()@ && old(self).spec_has_partition(t) ==> final(self).spec_partition(t) == old(self).spec_partition(t)
                },
                Err(e) => {
                    &&& e == ECSError::AlreadyInserted
                    &&& entity.id_spec() is Some
                    &&& *final(self) == *old(self)
                },
            },
    {
        if entity.id().is_some() {
            return Err(ECSError::AlreadyInserted);
        }
        let archetype = entity.archetype().clone();
        let mut entity = entity;
        match self.find_partition(&archetype) {
            Some(p) => {
                let ghost a = self.entities@;
                let index = self.entities[p].1.len();
                let id = EntityId::new(archetype, index);
                match entity.try_set_id(id.clone()) {
                    Ok(()) => {},
                    Err(_) => {
                        return Err(ECSError::CouldNotSpawn);
                    },
                }
                let ghost ent = entity;
                let slots = &mut self.entities[p].1;
                slots.push(Some(entity));
                proof {
                    let types = a[p as int].0@;
                    assert(partition_wf(a[p as int].0, a[p as int].1@));
                    assert(partition_wf(a[p as int].0, self.entities@[p as int].1@)) by {
                        let old_slots = a[p as int].1@;
                        let new_slots = self.entities@[p as int].1@;
                        assert(new_slots == old_slots.push(Some(ent)));
                        assert forall|n: int|
                            0 <= n < new_slots.len() implies slot_wf(types, new_slots, n) by {
                            if n < index {
                                assert(new_slots[n] == old_slots[n]);
                                assert(slot_wf(types, old_slots, n));
                            } else {
                                assert(new_slots[n] == Some(ent));
                                assert(ent.wf());
                                assert(ent.archetype_spec()@ == types);
                            }
                        }
                    }
                    lemma_part_update(a, self.entities@, p as int);
                }
                Ok(id)
            },
            None => {
                let ghost a = self.entities@;
                let id = EntityId::new(archetype.clone(), 0);
                match entity.try_set_id(id.clone()) {
                    Ok(()) => {},
                    Err(_) => {
                        return Err(ECSError::CouldNotSpawn);
                    },
                }
                let ghost ent = entity;
                let mut slots: Vec<Option<Entity<V>>> = Vec::new();
                slots.push(Some(entity));
                let entry = (archetype, slots);
                proof {
                    assert(partition_wf(entry.0, entry.1@)) by {
                        assert(entry.1@.len() == 1);
                        assert(entry.1@[0] == Some(ent));
                        assert(ent.wf());
                        assert(ent.archetype_spec()@ == entry.0@);
                    }
                    lemma_part_push(a, entry);
                }
                self.entities.push(entry);
                Ok(id)
            },
        }
    }

    /// Resolve an identity to the entity in its slot; nothing once the
    /// slot is cleared or was never filled.
    pub fn get(&self, id: &EntityId) -> (r: Option<&Entity<V>>)
        requires
            self.wf(),
        ensures
            match r {
                Some(e) => self.spec_get(*id) == Some(*e),
                None => self.spec_get(*id) is None,
            },
    {
        match self.find_partition(id.archetype()) {
            Some(p) => {
                let slots = &self.entities[p].1;
                if id.index() < slots.len() {
                    match &slots[id.index()] {
                        Some(e) => Some(e),
                        None => None,
                    }
                } else {
                    None
                }
            },
            None => None,
        }
    }

    /// Resolve an identity to its entity for mutation. The world stays
    /// well formed as long as the caller leaves the entity well formed
    /// with its archetype and identity intact — which every checked
    /// component accessor does.
    pub fn get_mut(&mut self, id: &EntityId) -> (r: Option<&mut Entity<V>>)
        requires
            old(self).wf(),
        ensures
            final(self).systems_spec() == old(self).systems_spec(),
            final(self).resources_spec() == old(self).resources_spec(),
            match r {
                Some(e) => {
                    &&& old(self).spec_get(*id) == Some(*e)
                    &&& final(self).spec_has_partition(id.archetype_spec()@)
                    &&& final(self).spec_partition(id.archetype_spec()@) == old(self).spec_partition(id.archetype_spec()@).update(
                        id.index_spec() as int,
                        Some(*final(e)),
                    )
                    &&& forall|t: Seq<i64>|
                        final(self).spec_has_partition(t) == old(self).spec_has_partition(t)
                    &&& forall|t: Seq<i64>|
                        t != id.archetype_spec()@ && old(self).spec_has_partition(t) ==> final(self).spec_partition(t) == old(self).spec_partition(t)
                    &&& ((final(e).wf() && final(e).archetype_spec()@ == id.archetype_spec()@ && (
                    final(e).id_spec() matches Some(s) && s.index_spec() == id.index_spec()
                        && s.archetype_spec()@ == id.archetype_spec()@)) ==> final(self).wf())
                },
                None => {
                    &&& old(self).spec_get(*id) is None
                    &&& *final(self) == *old(self)
                },
            },
    {
        let p = match self.find_partition(id.archetype()) {
            Some(p) => p,
            None => {
                return None;
            },
        };
        let idx = id.index();
        {
            let slots_ro = &self.entities[p].1;
            if idx >= slots_ro.len() || slots_ro[idx].is_none() {
                return None;
            }
        }
        let ghost a = self.entities@;
        let slots = &mut self.entities[p].1;
        let slot = &mut slots[idx];
        match slot {
            Some(e) => {
                proof {
                    let types = a[p as int].0@;
                    let old_slots = a[p as int].1@;
                    assert(partition_wf(a[p as int].0, old_slots));
                    assert forall|fe: Entity<V>|
                        fe.wf() && fe.archetype_spec()@ == types && (
                        fe.id_spec() matches Some(s) && s.index_spec() == idx
                            && s.archetype_spec()@ == types) implies partition_wf(
                        a[p as int].0,
                        #[trigger] old_slots.update(idx as int, Some(fe)),
                    ) by {
                        let ns = old_slots.update(idx as int, Some(fe));
                        assert forall|n: int| 0 <= n < ns.len() implies slot_wf(
                            types,
                            ns,
                            n,
                        ) by {
                            if n != idx {
                                assert(ns[n] == old_slots[n]);
                                assert(slot_wf(types, old_slots, n));
                            }
                        }
                    }
                    lemma_part_update(a, after_borrow(self).entities@, p as int);
                }
                Some(e)
            },
            None => {
                proof {
                    assert(false);
                }
                None
            },
        }
    }

    /// Clear the slot an identity names, handing its entity out; slots are
    /// never compacted, so every other identity stays valid.
    pub fn remove_id(&mut self, id: EntityId) -> (r: Option<Entity<V>>)
        requires
            old(self).wf(),
        ensures
            final(self).wf(),
            final(self).systems_spec() == old(self).systems_spec(),
            final(self).resources_spec() == old(self).resources_spec(),
            forall|t: Seq<i64>|
                final(self).spec_has_partition(t) == old(self).spec_has_partition(t),
            match r {
                Some(e) => {
                    &&& old(self).spec_get(id) == Some(e)
                    &&& final(self).spec_get(id) is None
                    &&& final(self).spec_partition(id.archetype_spec()@) == old(self).spec_partition(id.archetype_spec()@).update(id.index_spec() as int, None)
                    &&& forall|t: Seq<i64>|
                        t != id.archetype_spec()@ && old(self).spec_has_partition(t) ==> final(self).spec_partition(t) == old(self).spec_partition(t)
                },
                None => {
                    &&& old(self).spec_get(id) is None
                    &&& *final(self) == *old(self)
                },
            },
    {
        let p = match self.find_partition(id.archetype()) {
            Some(p) => p,
            None => {
                return None;
            },
        };
        let idx = id.index();
        {
            let slots = &self.entities[p].1;
            if idx >= slots.len() || slots[idx].is_none() {
                return None;
            }
        }
        let ghost a = self.entities@;
        let mut taken: Option<Entity<V>> = None;
        let slots = &mut self.entities[p].1;
        let slot = &mut slots[idx];
        core::mem::swap(slot, &mut taken);
        proof {
            let types = a[p as int].0@;
            assert(partition_wf(a[p as int].0, a[p as int].1@));
            assert(partition_wf(a[p as int].0, self.entities@[p as int].1@)) by {
                let old_slots = a[p as int].1@;
                let new_slots = self.entities@[p as int].1@;
                assert(new_slots == old_slots.update(idx as int, None));
                assert forall|n: int|
                    0 <= n < new_slots.len() implies slot_wf(types, new_slots, n) by {
                    if n != idx {
                        assert(new_slots[n] == old_slots[n]);
                        assert(slot_wf(types, old_slots, n));
                    } else {
                        assert(new_slots[n] is None);
                    }
                }
            }
            lemma_part_update(a, self.entities@, p as int);
        }
        taken
    }

    /// Clear the slot of an entity that was handed out earlier. An entity
    /// that never received an identity resolves to nothing.
    pub fn remove(&mut self, entity: Entity<V>) -> (r: Option<Entity<V>>)
        requires
            old(self).wf(),
        ensures
            final(self).wf(),
            final(self).systems_spec() == old(self).systems_spec(),
            final(self).resources_spec() == old(self).resources_spec(),
            forall|t: Seq<i64>|
                final(self).spec_has_partition(t) == old(self).spec_has_partition(t),
            match entity.id_spec() {
                Some(id) => match r {
                    Some(e) => {
                        &&& old(self).spec_get(id) == Some(e)
                        &&& final(self).spec_get(id) is None
                        &&& final(self).spec_partition(id.archetype_spec()@) == old(
                            self,
                        ).spec_partition(id.archetype_spec()@).update(
                            id.index_spec() as int,
                            None,
                        )
                        &&& forall|t: Seq<i64>|
                            t != id.archetype_spec()@ && old(self).spec_has_partition(t)
                                ==> final(self).spec_partition(t) == old(self).spec_partition(t)
                    },
                    None => old(self).spec_get(id) is None && *final(self) == *old(self),
                },
                None => r is None && *final(self) == *old(self),
            },
    {
        let id = match entity.id() {
            Some(id) => id.clone(),
            None => {
                return None;
            },
        };
        proof {
            let orig = entity.id_spec()->Some_0;
            assert(id.archetype_spec()@ == orig.archetype_spec()@);
            assert(id.index_spec() == orig.index_spec());
        }
        self.remove_id(id)
    }

    /// The entities of every filled slot, in iteration order.
    pub open spec fn live_entities(&self) -> Seq<Entity<V>> {
        all_live_of(self.partitions_spec())
    }

    /// The entities the query selects, in iteration order.
    pub open spec fn spec_query_entities(&self, query: &Query) -> Seq<Entity<V>> {
        query_live_of(self.partitions_spec(), query)
    }

    /// Walk every filled slot across every partition. A cleared slot is
    /// never yielded.
    pub fn iter(&self) -> (r: Vec<&Entity<V>>)
        requires
            self.wf(),
        ensures
            r@.len() == self.live_entities().len(),
            forall|k: int| 0 <= k < r@.len() ==> *(#[trigger] r@[k]) == self.live_entities()[k],
    {
        let parts = &self.entities;
        let mut result: Vec<&Entity<V>> = Vec::new();
        let mut i: usize = 0;

        while i < parts.len()
            invariant
                parts == &self.entities,
                i <= parts@.len(),
                result@.len() == all_live_of(parts@.take(i as int)).len(),
                forall|k: int|
                    0 <= k < result@.len() ==> *(#[trigger] result@[k]) == all_live_of(
                        parts@.take(i as int),
                    )[k],
            decreases parts@.len() - i,
        {
            let slots = &parts[i].1;
            let ghost done = all_live_of(parts@.take(i as int));
            let mut j: usize = 0;

            while j < slots.len()
                invariant
                    parts == &self.entities,
                    i < parts@.len(),
                    slots == &parts@[i as int].1,
                    done == all_live_of(parts@.take(i as int)),
                    j <= slots@.len(),
                    result@.len() == done.len() + live_of(slots@.take(j as int)).len(),
                    forall|k: int|
                        0 <= k < result@.len() ==> *(#[trigger] result@[k]) == (done + live_of(
                            slots@.take(j as int),
                        ))[k],
                decreases slots@.len() - j,
            {
                proof {
                    assert(slots@.take(j + 1).drop_last() =~= slots@.take(j as int));
                    assert(slots@.take(j + 1).last() == slots@[j as int]);
                }
                match &slots[j] {
                    Some(e) => {
                        result.push(e);
                    },
                    None => {},
                }
                j += 1;
            }
            proof {
                assert(slots@.take(slots@.len() as int) =~= slots@);
                assert(parts@.take(i + 1).drop_last() =~= parts@.take(i as int));
                assert(parts@.take(i + 1).last() == parts@[i as int]);
            }
            i += 1;
        }
        proof {
            assert(parts@.take(parts@.len() as int) =~= parts@);
        }
        result
    }

    /// Walk every filled slot of every partition the query matches: the
    /// archetype is tested once per partition, never per entity.
    pub fn query_entities(&self, query: &Query) -> (r: Vec<&Entity<V>>)
        requires
            self.wf(),
        ensures
            r@.len() == self.spec_query_entities(query).len(),
            forall|k: int|
                0 <= k < r@.len() ==> *(#[trigger] r@[k]) == self.spec_query_entities(query)[k],
    {
        let parts = &self.entities;
        let mut result: Vec<&Entity<V>> = Vec::new();
        let mut i: usize = 0;

        while i < parts.len()
            invariant
                parts == &self.entities,
                self.wf(),
                i <= parts@.len(),
                result@.len() == query_live_of(parts@.take(i as int), query).len(),
                forall|k: int|
                    0 <= k < result@.len() ==> *(#[trigger] result@[k]) == query_live_of(
                        parts@.take(i as int),
                        query,
                    )[k],
            decreases parts@.len() - i,
        {
            proof {
                assert(parts@.take(i + 1).drop_last() =~= parts@.take(i as int));
                assert(parts@.take(i + 1).last() == parts@[i as int]);
                assert(partition_wf(parts@[i as int].0, parts@[i as int].1@));
            }
            if query.matches(&parts[i].0) {
                let slots = &parts[i].1;
                let ghost done = query_live_of(parts@.take(i as int), query);
                let mut j: usize = 0;

                while j < slots.len()
                    invariant
                        parts == &self.entities,
                        i < parts@.len(),
                        slots == &parts@[i as int].1,
                        done == query_live_of(parts@.take(i as int), query),
                        j <= slots@.len(),
                        result@.len() == done.len() + live_of(slots@.take(j as int)).len(),
                        forall|k: int|
                            0 <= k < result@.len() ==> *(#[trigger] result@[k]) == (done
                                + live_of(slots@.take(j as int)))[k],
                    decreases slots@.len() - j,
                {
                    proof {
                        assert(slots@.take(j + 1).drop_last() =~= slots@.take(j as int));
                        assert(slots@.take(j + 1).last() == slots@[j as int]);
                    }
                    match &slots[j] {
                        Some(e) => {
                            result.push(e);
                        },
                        None => {},
                    }
                    j += 1;
                }
                proof {
                    assert(slots@.take(slots@.len() as int) =~= slots@);
                }
            }
            i += 1;
        }
        proof {
            assert(parts@.take(parts@.len() as int) =~= parts@);
        }
        result
    }

    /// The first entity the query selects, if any.
    pub fn query_one_entity(&self, query: &Query) -> (r: Option<&Entity<V>>)
        requires
            self.wf(),
        ensures
            match r {
                Some(e) => self.spec_query_entities(query).len() > 0 && *e
                    == self.spec_query_entities(query)[0],
                None => self.spec_query_entities(query).len() == 0,
            },
    {
        let found = self.query_entities(query);
        if found.len() > 0 {
            Some(found[0])
        } else {
            None
        }
    }

    /// The number of archetype partitions in use.
    pub fn entity_count(&self) -> (r: usize)
        ensures
            r == self.partitions_spec().len(),
    {
        self.entities.len()
    }

    /// Store a singleton resource under its type key; a second resource of
    /// the same key is refused and nothing changes.
    pub fn insert_resource(&mut self, key: TypeKey, resource: V) -> (r: Result<(), ECSError>)
        requires
            old(self).wf(),
        ensures
            final(self).wf(),
            final(self).partitions_spec() == old(self).partitions_spec(),
            final(self).systems_spec() == old(self).systems_spec(),
            match r {
                Ok(()) => {
                    &&& !old(self).resources_spec().spec_has(key)
                    &&& final(self).resources_spec().spec_has(key)
                    &&& final(self).resources_spec().spec_value(key) == resource
                    &&& final(self).resources_spec().spec_state(key) == ReferenceState::Idle
                    &&& old(self).resources_spec().agrees_except(
                        &final(self).resources_spec(),
                        key,
                    )
                },
                Err(e) => {
                    &&& e == ECSError::DataAlreadyExists
                    &&& old(self).resources_spec().spec_has(key)
                    &&& *final(self) == *old(self)
                },
            },
    {
        self.resources.insert(key, resource)
    }

    /// Whether a resource of this type key is stored; takes no access.
    pub fn has_resource(&self, key: TypeKey) -> (r: bool)
        requires
            self.wf(),
        ensures
            r == self.resources_spec().spec_has(key),
    {
        self.resources.has(key)
    }

    /// Whether a resource of this type key is stored; takes no access.
    pub fn has_resource_type_id(&self, type_id: &TypeKey) -> (r: bool)
        requires
            self.wf(),
        ensures
            r == self.resources_spec().spec_has(*type_id),
    {
        self.resources.has_type_id(type_id)
    }

    /// Acquire a shared access to the resource of this type key and read
    /// it; hand it back with `release_resource`.
    pub fn get_resource(&mut self, key: TypeKey) -> (r: Result<&V, ECSError>)
        requires
            old(self).wf(),
        ensures
            final(self).wf(),
            final(self).partitions_spec() == old(self).partitions_spec(),
            final(self).systems_spec() == old(self).systems_spec(),
            match r {
                Ok(v) => {
                    &&& old(self).resources_spec().spec_has(key)
                    &&& final(self).resources_spec().spec_has(key)
                    &&& *v == old(self).resources_spec().spec_value(key)
                    &&& final(self).resources_spec().spec_value(key) == old(
                        self,
                    ).resources_spec().spec_value(key)
                    &&& Some(final(self).resources_spec().spec_state(key)) == old(
                        self,
                    ).resources_spec().spec_state(key).incremented()
                    &&& old(self).resources_spec().agrees_except(
                        &final(self).resources_spec(),
                        key,
                    )
                },
                Err(e) => {
                    &&& old(self).resources_spec().agrees(&final(self).resources_spec())
                    &&& (e == ECSError::CouldNotRetrieve <==> !old(
                        self,
                    ).resources_spec().spec_has(key))
                    &&& (e == ECSError::BorrowConflict <==> old(self).resources_spec().spec_has(
                        key,
                    ) && old(self).resources_spec().spec_state(key).incremented() is None)
                    &&& (e == ECSError::CouldNotRetrieve || e == ECSError::BorrowConflict)
                },
            },
    {
        self.resources.get(key)
    }

    /// Acquire the exclusive access to the resource of this type key and
    /// get it to write through; hand it back with `release_resource_mut`.
    pub fn get_resource_mut(&mut self, key: TypeKey) -> (r: Result<&mut V, ECSError>)
        requires
            old(self).wf(),
        ensures
            final(self).wf(),
            final(self).partitions_spec() == old(self).partitions_spec(),
            final(self).systems_spec() == old(self).systems_spec(),
            match r {
                Ok(v) => {
                    &&& old(self).resources_spec().spec_has(key)
                    &&& final(self).resources_spec().spec_has(key)
                    &&& old(self).resources_spec().spec_state(key) == ReferenceState::Idle
                    &&& *v == old(self).resources_spec().spec_value(key)
                    &&& final(self).resources_spec().spec_value(key) == *final(v)
                    &&& final(self).resources_spec().spec_state(key)
                        == ReferenceState::Exclusive
                    &&& old(self).resources_spec().agrees_except(
                        &final(self).resources_spec(),
                        key,
                    )
                },
                Err(e) => {
                    &&& old(self).resources_spec().agrees(&final(self).resources_spec())
                    &&& (e == ECSError::CouldNotRetrieve <==> !old(
                        self,
                    ).resources_spec().spec_has(key))
                    &&& (e == ECSError::BorrowConflict <==> old(self).resources_spec().spec_has(
                        key,
                    ) && old(self).resources_spec().spec_state(key) != ReferenceState::Idle)
                    &&& (e == ECSError::CouldNotRetrieve || e == ECSError::BorrowConflict)
                },
            },
    {
        self.resources.get_mut(key)
    }

    /// Give one shared access to the resource of this type key back.
    pub fn release_resource(&mut self, key: TypeKey) -> (r: Result<(), ECSError>)
        requires
            old(self).wf(),
        ensures
            final(self).wf(),
            final(self).partitions_spec() == old(self).partitions_spec(),
            final(self).systems_spec() == old(self).systems_spec(),
            match r {
                Ok(()) => {
                    &&& old(self).resources_spec().spec_has(key)
                    &&& final(self).resources_spec().spec_has(key)
                    &&& final(self).resources_spec().spec_value(key) == old(
                        self,
                    ).resources_spec().spec_value(key)
                    &&& Some(final(self).resources_spec().spec_state(key)) == old(
                        self,
                    ).resources_spec().spec_state(key).decremented()
                    &&& old(self).resources_spec().agrees_except(
                        &final(self).resources_spec(),
                        key,
                    )
                },
                Err(e) => {
                    &&& old(self).resources_spec().agrees(&final(self).resources_spec())
                    &&& (e == ECSError::CouldNotRetrieve <==> !old(
                        self,
                    ).resources_spec().spec_has(key))
                    &&& (e == ECSError::BorrowConflict <==> old(self).resources_spec().spec_has(
                        key,
                    ) && old(self).resources_spec().spec_state(key).decremented() is None)
                    &&& (e == ECSError::CouldNotRetrieve || e == ECSError::BorrowConflict)
                },
            },
    {
        self.resources.release(key)
    }

    /// Give the exclusive access to the resource of this type key back.
    pub fn release_resource_mut(&mut self, key: TypeKey) -> (r: Result<(), ECSError>)
        requires
            old(self).wf(),
        ensures
            final(self).wf(),
            final(self).partitions_spec() == old(self).partitions_spec(),
            final(self).systems_spec() == old(self).systems_spec(),
            match r {
                Ok(()) => {
                    &&& old(self).resources_spec().spec_has(key)
                    &&& final(self).resources_spec().spec_has(key)
                    &&& old(self).resources_spec().spec_state(key)
                        == ReferenceState::Exclusive
                    &&& final(self).resources_spec().spec_value(key) == old(
                        self,
                    ).resources_spec().spec_value(key)
                    &&& final(self).resources_spec().spec_state(key) == ReferenceState::Idle
                    &&& old(self).resources_spec().agrees_except(
                        &final(self).resources_spec(),
                        key,
                    )
                },
                Err(e) => {
                    &&& old(self).resources_spec().agrees(&final(self).resources_spec())
                    &&& (e == ECSError::CouldNotRetrieve <==> !old(
                        self,
                    ).resources_spec().spec_has(key))
                    &&& (e == ECSError::BorrowConflict <==> old(self).resources_spec().spec_has(
                        key,
                    ) && old(self).resources_spec().spec_state(key)
                        != ReferenceState::Exclusive)
                    &&& (e == ECSError::CouldNotRetrieve || e == ECSError::BorrowConflict)
                },
            },
    {
        self.resources.release_mut(key)
    }
}

impl<V, S: System<V>> World<V, S> {
    /// Register a system: run its one-time hook, then place it in the
    /// execution order, after every system of equal or higher priority and
    /// before every strictly lower one.
    pub fn add_system(&mut self, system: S, priority: i32)
        requires
            old(self).wf(),
        ensures
            final(self).wf(),
            final(self).systems_spec() == old(self).systems_spec().insert(
                insertion_point(old(self).systems_spec(), priority),
                (system, priority),
            ),
    {
        system.initialize(self);
        let ghost s0 = self.systems@;
        let mut index: usize = 0;

        while index < self.systems.len() && self.systems[index].1 >= priority
            invariant
                self.systems@ == s0,
                index <= s0.len(),
                forall|m: int| 0 <= m < index ==> (#[trigger] s0[m]).1 >= priority,
            decreases s0.len() - index,
        {
            index += 1;
        }
        proof {
            lemma_insertion_point_is(s0, priority, index as int);
        }
        let ghost sys = system;
        self.systems.insert(index, (system, priority));
        proof {
            lemma_scheduler_stable(s0, sys, priority);
        }
    }

    /// Run every registered system once, in descending priority order,
    /// each seeing the world the one before it left. The system list is as
    /// it was when the tick began.
    pub fn tick(&mut self)
        requires
            old(self).wf(),
        ensures
            final(self).wf(),
            final(self).systems_spec() == old(self).systems_spec(),
    {
        let mut tmp: Vec<(S, i32)> = Vec::new();
        core::mem::swap(&mut self.systems, &mut tmp);
        let ghost order = tmp@;
        let mut i: usize = 0;

        while i < tmp.len()
            invariant
                self.wf(),
                self.systems@ == Seq::<(S, i32)>::empty(),
                tmp@ == order,
                i <= tmp@.len(),
            decreases tmp@.len() - i,
        {
            let entry = &tmp[i];
            entry.0.execute(self);
            i += 1;
        }
        core::mem::swap(&mut self.systems, &mut tmp);
    }
}

impl<V, S> Default for World<V, S> {
    fn default() -> (r: Self)
        ensures
            r.wf(),
            r.partitions_spec() == Seq::<(Archetype, Vec<Option<Entity<V>>>)>::empty(),
            r.systems_spec() == Seq::<(S, i32)>::empty(),
            forall|k: i64| !r.resources_spec().spec_has(k),
    {
        World::new()
    }
}

/// Where a new registration lands: after every system whose priority is
/// at least its own, before every strictly lower one — so equal
/// priorities keep their registration order — and the list stays sorted
/// by descending priority.
pub proof fn lemma_scheduler_stable<S>(s: Seq<(S, i32)>, sys: S, priority: i32)
    requires
        systems_sorted(s),
    ensures
        0 <= insertion_point(s, priority) <= s.len(),
        forall|m: int|
            0 <= m < insertion_point(s, priority) ==> (#[trigger] s[m]).1 >= priority,
        forall|m: int|
            insertion_point(s, priority) <= m < s.len() ==> (#[trigger] s[m]).1 < priority,
        systems_sorted(s.insert(insertion_point(s, priority), (sys, priority))),
    decreases s.len(),
{
    let ip = insertion_point(s, priority);
    if s.len() == 0 {
    } else if s[0].1 >= priority {
        let t = s.drop_first();
        assert(systems_sorted(t)) by {
            assert(forall|m: int| 0 <= m < t.len() ==> (#[trigger] t[m]) == s[m + 1]);
        }
        lemma_scheduler_stable(t, sys, priority);
        assert(forall|m: int| 0 <= m < t.len() ==> (#[trigger] t[m]) == s[m + 1]);
        assert(ip == 1 + insertion_point(t, priority));
        assert forall|m: int| 0 <= m < ip implies (#[trigger] s[m]).1 >= priority by {
            if m > 0 {
                assert(t[m - 1].1 >= priority);
            }
        }
        assert forall|m: int| ip <= m < s.len() implies (#[trigger] s[m]).1 < priority by {
            assert(t[m - 1].1 < priority);
        }
    } else {
        assert forall|m: int| 0 <= m < s.len() implies (#[trigger] s[m]).1 < priority by {
            if m > 0 {
                assert(s[0].1 >= s[m].1);
            }
        }
    }
    let ns = s.insert(ip, (sys, priority));
    assert(systems_sorted(ns)) by {
        assert(forall|m: int| 0 <= m < ip ==> (#[trigger] ns[m]) == s[m]);
        assert(ns[ip] == (sys, priority));
        assert(forall|m: int| ip < m < ns.len() ==> (#[trigger] ns[m]) == s[m - 1]);
        assert forall|x: int, y: int| 0 <= x < y < ns.len() implies (#[trigger] ns[x]).1 >= (
        #[trigger] ns[y]).1 by {
            if x < ip && y > ip {
                assert(s[x].1 >= s[y - 1].1);
            }
        }
    }
}

/// Every entity the slot walk yields sits in some filled slot.
proof fn lemma_live_of_member<V>(slots: Seq<Option<Entity<V>>>, k: int)
    requires
        0 <= k < live_of(slots).len(),
    ensures
        exists|n: int| 0 <= n < slots.len() && slots[n] == Some(live_of(slots)[k]),
    decreases slots.len(),
{
    let head = slots.drop_last();
    if k < live_of(head).len() {
        lemma_live_of_member(head, k);
        let n = choose|n: int| 0 <= n < head.len() && head[n] == Some(live_of(head)[k]);
        assert(slots[n] == Some(live_of(slots)[k]));
    } else {
        assert(slots.last() == Some(live_of(slots)[k]));
        assert(slots[slots.len() - 1] == Some(live_of(slots)[k]));
    }
}

/// Every entity the full walk yields sits in some filled slot of some
/// partition.
proof fn lemma_all_live_member<V>(parts: Seq<(Archetype, Vec<Option<Entity<V>>>)>, k: int)
    requires
        0 <= k < all_live_of(parts).len(),
    ensures
        exists|i: int, n: int|
            0 <= i < parts.len() && 0 <= n < parts[i].1@.len() && parts[i].1@[n] == Some(
                all_live_of(parts)[k],
            ),
    decreases parts.len(),
{
    let head = parts.drop_last();
    if k < all_live_of(head).len() {
        lemma_all_live_member(head, k);
        let (i, n) = choose|i: int, n: int|
            0 <= i < head.len() && 0 <= n < head[i].1@.len() && head[i].1@[n] == Some(
                all_live_of(head)[k],
            );
        assert(parts[i].1@[n] == Some(all_live_of(parts)[k]));
    } else {
        let j = k - all_live_of(head).len();
        let slots = parts.last().1@;
        lemma_live_of_member(slots, j);
        let n = choose|n: int| 0 <= n < slots.len() && slots[n] == Some(live_of(slots)[j]);
        assert(parts[parts.len() - 1].1@[n] == Some(all_live_of(parts)[k]));
    }
}

/// A cleared slot's entity is gone for good: once an identity resolves to
/// nothing, no entity the world's walk yields carries that identity.
pub proof fn lemma_removed_never_iterated<V, S>(w: World<V, S>, id: EntityId)
    requires
        w.wf(),
        w.spec_get(id) is None,
    ensures
        forall|k: int|
            0 <= k < w.live_entities().len() ==> !((#[trigger] w.live_entities()[k]).id_spec()
                 matches Some(s) && s.index_spec() == id.index_spec() && s.archetype_spec()@
                == id.archetype_spec()@),
{
    let parts = w.partitions_spec();
    assert forall|k: int| 0 <= k < w.live_entities().len() implies !((
    #[trigger] w.live_entities()[k]).id_spec() matches Some(s) && s.index_spec()
        == id.index_spec() && s.archetype_spec()@ == id.archetype_spec()@) by {
        lemma_all_live_member(parts, k);
        let e = w.live_entities()[k];
        let (i, n) = choose|i: int, n: int|
            0 <= i < parts.len() && 0 <= n < parts[i].1@.len() && parts[i].1@[n] == Some(e);
        assert(partition_wf(parts[i].0, parts[i].1@));
        assert(slot_wf(parts[i].0@, parts[i].1@, n));
        if e.id_spec() matches Some(s) && s.index_spec() == id.index_spec()
            && s.archetype_spec()@ == id.archetype_spec()@ {
            assert(parts[i].0@ == id.archetype_spec()@);
            lemma_part_index_is(parts, id.archetype_spec()@, i);
            assert(w.spec_partition(id.archetype_spec()@)[id.index_spec() as int] == Some(e));
        }
    }
}

/// The stable insertion point is exactly where a scan that walks past
/// every priority at least as high stops.
proof fn lemma_insertion_point_is<S>(s: Seq<(S, i32)>, priority: i32, i: int)
    requires
        0 <= i <= s.len(),
        forall|m: int| 0 <= m < i ==> (#[trigger] s[m]).1 >= priority,
        i < s.len() ==> s[i].1 < priority,
    ensures
        insertion_point(s, priority) == i,
    decreases s.len(),
{
    if s.len() == 0 {
    } else if s[0].1 >= priority {
        let t = s.drop_first();
        assert(forall|m: int| 0 <= m < t.len() ==> (#[trigger] t[m]) == s[m + 1]);
        assert(i >= 1) by {
            if i == 0 {
                assert(s[0].1 < priority);
            }
        }
        lemma_insertion_point_is(t, priority, i - 1);
    } else {
        assert(i == 0) by {
            if i > 0 {
                assert(s[0].1 >= priority);
            }
        }
    }
}

} // verus!
