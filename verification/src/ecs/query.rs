use vstd::prelude::*;

verus! {

use crate::TypeKey;
use crate::ecs::archetype::Archetype;
use crate::ecs::entity::Entity;

/// A predicate over type-key sets: an archetype matches when it holds
/// every included key and none of the excluded ones. A query listing the
/// same key on both sides is unsatisfiable, since no set both holds and
/// lacks a key.
pub struct Query {
    includes: Vec<i64>,
    excludes: Vec<i64>,
}

impl Query {
    /// The keys a matching archetype must hold.
    pub closed spec fn includes_spec(&self) -> Seq<i64> {
        self.includes@
    }

    /// The keys a matching archetype must lack.
    pub closed spec fn excludes_spec(&self) -> Seq<i64> {
        self.excludes@
    }

    /// Whether a type-key set satisfies the query.
    pub open spec fn spec_matches(&self, types: Seq<i64>) -> bool {
        &&& forall|k: i64| self.includes_spec().contains(k) ==> types.contains(k)
        &&& forall|k: i64| self.excludes_spec().contains(k) ==> !types.contains(k)
    }

    /// A query with no constraints; it matches every archetype.
    pub fn new() -> (r: Self)
        ensures
            r.includes_spec() == Seq::<i64>::empty(),
            r.excludes_spec() == Seq::<i64>::empty(),
    {
        Query { includes: Vec::new(), excludes: Vec::new() }
    }

    /// Require matching archetypes to hold this key.
    pub fn including(self, key: TypeKey) -> (r: Self)
        ensures
            r.includes_spec() == self.includes_spec().push(key),
            r.excludes_spec() == self.excludes_spec(),
    {
        let mut q = self;
        q.includes.push(key);
        q
    }

    /// Require matching archetypes to lack this key.
    pub fn exclude(self, key: TypeKey) -> (r: Self)
        ensures
            r.includes_spec() == self.includes_spec(),
            r.excludes_spec() == self.excludes_spec().push(key),
    {
        let mut q = self;
        q.excludes.push(key);
        q
    }

    /// Whether the archetype satisfies the query: every included key
    /// present, no excluded key present.
    pub fn matches(&self, archetype: &Archetype) -> (r: bool)
        requires
            archetype.wf(),
        ensures
            r == self.spec_matches(archetype@),
    {
        let mut i: usize = 0;

        while i < self.includes.len()
            invariant
                archetype.wf(),
                i <= self.includes@.len(),
                forall|m: int| 0 <= m < i ==> archetype@.contains(#[trigger] self.includes@[m]),
            decreases self.includes@.len() - i,
        {
            if !archetype.has_type_id(&self.includes[i]) {
                assert(self.includes_spec().contains(self.includes@[i as int]));
                return false;
            }
            i += 1;
        }
        assert(forall|k: i64| self.includes_spec().contains(k) ==> archetype@.contains(k)) by {
            assert(forall|k: i64| #[trigger] self.includes@.contains(k) ==> exists|m: int|
                0 <= m < self.includes@.len() && self.includes@[m] == k);
        }

        let mut j: usize = 0;

        while j < self.excludes.len()
            invariant
                archetype.wf(),
                j <= self.excludes@.len(),
                forall|m: int| 0 <= m < j ==> !archetype@.contains(#[trigger] self.excludes@[m]),
            decreases self.excludes@.len() - j,
        {
            if archetype.has_type_id(&self.excludes[j]) {
                assert(self.excludes_spec().contains(self.excludes@[j as int]));
                return false;
            }
            j += 1;
        }
        assert(forall|k: i64| self.excludes_spec().contains(k) ==> !archetype@.contains(k)) by {
            assert(forall|k: i64| #[trigger] self.excludes@.contains(k) ==> exists|m: int|
                0 <= m < self.excludes@.len() && self.excludes@[m] == k);
        }
        true
    }

    /// Whether the entity's component set satisfies the query; equivalent
    /// to matching the entity's archetype.
    pub fn contains<V>(&self, entity: &Entity<V>) -> (r: bool)
        requires
            entity.wf(),
        ensures
            r == self.spec_matches(entity.archetype_spec()@),
    {
        self.matches(entity.archetype())
    }

    /// Union the other query's included and excluded key lists into this one.
    pub fn join(&mut self, other: Query)
        ensures
            final(self).includes_spec() == old(self).includes_spec() + other.includes_spec(),
            final(self).excludes_spec() == old(self).excludes_spec() + other.excludes_spec(),
    {
        let mut i: usize = 0;

        while i < other.includes.len()
            invariant
                i <= other.includes@.len(),
                self.includes@ == old(self).includes@ + other.includes@.take(i as int),
                self.excludes@ == old(self).excludes@,
            decreases other.includes@.len() - i,
        {
            self.includes.push(other.includes[i]);
            proof {
                assert(other.includes@.take(i + 1) =~= other.includes@.take(i as int).push(
                    other.includes@[i as int],
                ));
            }
            i += 1;
        }
        proof {
            assert(other.includes@.take(other.includes@.len() as int) =~= other.includes@);
        }

        let mut j: usize = 0;

        while j < other.excludes.len()
            invariant
                j <= other.excludes@.len(),
                self.includes@ == old(self).includes@ + other.includes@,
                self.excludes@ == old(self).excludes@ + other.excludes@.take(j as int),
            decreases other.excludes@.len() - j,
        {
            self.excludes.push(other.excludes[j]);
            proof {
                assert(other.excludes@.take(j + 1) =~= other.excludes@.take(j as int).push(
                    other.excludes@[j as int],
                ));
            }
            j += 1;
        }
        proof {
            assert(other.excludes@.take(other.excludes@.len() as int) =~= other.excludes@);
        }
    }
}

impl Default for Query {
    fn default() -> (r: Self)
        ensures
            r.includes_spec() == Seq::<i64>::empty(),
            r.excludes_spec() == Seq::<i64>::empty(),
    {
        Query::new()
    }
}

impl Clone for Query {
    fn clone(&self) -> (r: Self)
        ensures
            r.includes_spec() == self.includes_spec(),
            r.excludes_spec() == self.excludes_spec(),
    {
        let includes = self.includes.clone();
        let excludes = self.excludes.clone();
        proof {
            assert forall|i: int| 0 <= i < self.includes@.len() implies includes@[i]
                == self.includes@[i] by {
                assert(cloned::<i64>(self.includes@[i], includes@[i]));
            }
            assert(includes@ =~= self.includes@);
            assert forall|i: int| 0 <= i < self.excludes@.len() implies excludes@[i]
                == self.excludes@[i] by {
                assert(cloned::<i64>(self.excludes@[i], excludes@[i]));
            }
            assert(excludes@ =~= self.excludes@);
        }
        Query { includes, excludes }
    }
}

/// Joining queries is associative: however a chain of joins is bracketed,
/// the included and excluded key lists come out the same.
pub proof fn lemma_join_associative(a: Seq<i64>, b: Seq<i64>, c: Seq<i64>)
    ensures
        (a + b) + c == a + (b + c),
{
    assert((a + b) + c =~= a + (b + c));
}

} // verus!
