use vstd::prelude::*;

verus! {

use crate::TypeKey;

/// A sequence is strictly increasing: sorted with no duplicates.
pub open spec fn strictly_sorted(s: Seq<i64>) -> bool {
    forall|i: int, j: int| 0 <= i < j < s.len() ==> s[i] < s[j]
}

/// An ordered, duplicate-free vector of keys; the backing store for an
/// archetype's type set. Insertion keeps the data sorted and drops
/// duplicates, so two stores built from the same key set are identical.
#[derive(Debug, Hash)]
pub struct SortedVec {
    data: Vec<i64>,
}

impl Clone for SortedVec {
    fn clone(&self) -> (r: Self)
        ensures
            r@ == self@,
            self.wf() ==> r.wf(),
    {
        let data = self.data.clone();
        proof {
            assert forall|i: int| 0 <= i < self.data@.len() implies data@[i]
                == self.data@[i] by {
                assert(cloned::<i64>(self.data@[i], data@[i]));
            }
            assert(data@ =~= self.data@);
        }
        SortedVec { data }
    }
}

impl View for SortedVec {
    type V = Seq<i64>;

    closed spec fn view(&self) -> Seq<i64> {
        self.data@
    }
}

impl SortedVec {
    /// The store's invariant: its keys are sorted and duplicate-free.
    pub open spec fn wf(&self) -> bool {
        strictly_sorted(self@)
    }

    pub fn new() -> (r: Self)
        ensures
            r@ == Seq::<i64>::empty(),
            r.wf(),
    {
        SortedVec { data: Vec::new() }
    }

    /// Insert `item` at its sorted position; a duplicate is dropped.
    /// Returns the index the item was inserted at, or `None` for a duplicate.
    pub fn push(&mut self, item: i64) -> (r: Option<usize>)
        requires
            old(self).wf(),
        ensures
            final(self).wf(),
            match r {
                Option::None => {
                    &&& old(self)@.contains(item)
                    &&& final(self)@ == old(self)@
                },
                Option::Some(i) => {
                    &&& !old(self)@.contains(item)
                    &&& 0 <= i <= old(self)@.len()
                    &&& final(self)@ == old(self)@.insert(i as int, item)
                },
            },
            forall|x: i64| final(self)@.contains(x) <==> (old(self)@.contains(x) || x == item),
    {
        let mut index: usize = 0;

        while index < self.data.len() && self.data[index] < item
            invariant
                index <= self.data@.len(),
                forall|k: int| 0 <= k < index ==> self.data@[k] < item,
            decreases self.data@.len() - index,
        {
            index += 1;
        }

        if index < self.data.len() && self.data[index] == item {
            assert(self@.contains(item)) by {
                assert(self.data@[index as int] == item);
            }
            return Option::None;
        }

        assert(forall|k: int| index <= k < self.data@.len() ==> self.data@[k] > item) by {
            if index < self.data@.len() {
                assert(self.data@[index as int] > item);
                assert(forall|k: int| index < k < self.data@.len()
                    ==> self.data@[index as int] < self.data@[k]);
            }
        }
        assert(!self@.contains(item)) by {
            if self@.contains(item) {
                let w = choose|w: int| 0 <= w < self@.len() && self@[w] == item;
                assert(self.data@[w] == item);
            }
        }
        self.data.insert(index, item);
        proof {
            let s = old(self)@;
            let t = self.data@;
            assert(strictly_sorted(t)) by {
                assert(forall|i: int, j: int| 0 <= i < j < t.len() ==> t[i] < t[j]) by {
                    assert(forall|i: int| 0 <= i < index ==> t[i] == s[i]);
                    assert(t[index as int] == item);
                    assert(forall|j: int| index < j < t.len() ==> t[j] == s[j - 1]);
                }
            }
            assert(forall|x: i64| self@.contains(x) <==> (s.contains(x) || x == item)) by {
                assert(forall|x: i64| #[trigger] s.contains(x) ==> self@.contains(x)) by {
                    assert(forall|k: int| 0 <= k < s.len()
                        ==> self@.contains(#[trigger] s[k])) by {
                        assert(forall|k: int| 0 <= k < index ==> t[k] == s[k]);
                        assert(forall|k: int| index <= k < s.len() ==> t[k + 1] == s[k]);
                    }
                }
                assert(self@.contains(item)) by {
                    assert(t[index as int] == item);
                }
                assert(forall|x: i64| self@.contains(x) && x != item ==> s.contains(x)) by {
                    assert(forall|k: int| 0 <= k < t.len() && t[k] != item
                        ==> s.contains(#[trigger] t[k])) by {
                        assert(forall|k: int| 0 <= k < index ==> t[k] == s[k]);
                        assert(forall|k: int| index < k < t.len() ==> t[k] == s[k - 1]);
                    }
                }
            }
        }
        Option::Some(index)
    }

    pub fn len(&self) -> (r: usize)
        ensures
            r == self@.len(),
    {
        self.data.len()
    }

    /// Superset test: true iff every key of `other` is also a key of `self`.
    /// Both sides are sorted, so one merge-style forward scan suffices.
    pub fn contains(&self, other: &SortedVec) -> (r: bool)
        requires
            self.wf(),
            other.wf(),
        ensures
            r == forall|x: i64| other@.contains(x) ==> self@.contains(x),
    {
        let mut index: usize = 0;
        let mut j: usize = 0;

        while j < other.data.len()
            invariant
                strictly_sorted(self.data@),
                strictly_sorted(other.data@),
                index <= self.data@.len(),
                j <= other.data@.len(),
                forall|k: int| 0 <= k < j ==> self@.contains(#[trigger] other.data@[k]),
                forall|m: int|
                    0 <= m < index && j < other.data@.len()
                        ==> self.data@[m] < other.data@[j as int],
            decreases other.data@.len() - j,
        {
            let target = other.data[j];

            while index < self.data.len() && self.data[index] < target
                invariant
                    strictly_sorted(self.data@),
                    index <= self.data@.len(),
                    forall|m: int| 0 <= m < index ==> self.data@[m] < target,
                decreases self.data@.len() - index,
            {
                index += 1;
            }

            if index >= self.data.len() || self.data[index] != target {
                assert(!self@.contains(target)) by {
                    if index < self.data@.len() {
                        assert(self.data@[index as int] > target);
                    }
                    if self@.contains(target) {
                        let w = choose|w: int| 0 <= w < self@.len() && self@[w] == target;
                        assert(index <= w < self.data@.len());
                        assert(self.data@[index as int] <= self.data@[w]);
                    }
                }
                assert(other@.contains(target)) by {
                    assert(other.data@[j as int] == target);
                }
                return false;
            }
            assert(self@.contains(target)) by {
                assert(self.data@[index as int] == target);
            }
            assert(forall|m: int|
                0 <= m < index + 1 && j + 1 < other.data@.len() ==> self.data@[m] < other.data@[j
                    + 1]) by {
                if j + 1 < other.data@.len() {
                    assert(other.data@[j as int] < other.data@[j + 1]);
                    assert(forall|m: int| 0 <= m < index
                        ==> self.data@[m] < self.data@[index as int]);
                }
            }
            index += 1;
            j += 1;
        }
        assert(forall|x: i64| other@.contains(x) ==> self@.contains(x)) by {
            assert(forall|k: int| 0 <= k < other@.len()
                ==> self@.contains(#[trigger] other.data@[k]));
            assert(forall|x: i64| other@.contains(x) ==> exists|k: int|
                0 <= k < other@.len() && other@[k] == x);
        }
        true
    }

    /// Membership test for one key, with early exit past its sorted position.
    pub fn has(&self, item: &i64) -> (r: bool)
        requires
            self.wf(),
        ensures
            r == self@.contains(*item),
    {
        let target = *item;
        let mut index: usize = 0;

        while index < self.data.len() && self.data[index] < target
            invariant
                index <= self.data@.len(),
                forall|k: int| 0 <= k < index ==> self.data@[k] < target,
            decreases self.data@.len() - index,
        {
            index += 1;
        }

        if index < self.data.len() && self.data[index] == target {
            assert(self@.contains(target)) by {
                assert(self.data@[index as int] == target);
            }
            true
        } else {
            assert(!self@.contains(target)) by {
                if self@.contains(target) {
                    let w = choose|w: int| 0 <= w < self@.len() && self@[w] == target;
                    assert(index <= w < self.data@.len());
                    if index < self.data@.len() && w > index {
                        assert(self.data@[index as int] < self.data@[w]);
                    }
                }
            }
            false
        }
    }

    /// Build a store from arbitrary, possibly unsorted and duplicated, keys.
    pub fn from_vec(items: Vec<i64>) -> (r: Self)
        ensures
            r.wf(),
            forall|x: i64| r@.contains(x) <==> items@.contains(x),
    {
        let mut sorted = SortedVec::new();
        let mut i: usize = 0;

        while i < items.len()
            invariant
                sorted.wf(),
                i <= items@.len(),
                forall|x: i64|
                    sorted@.contains(x) <==> exists|k: int|
                        0 <= k < i && items@[k] == x,
            decreases items@.len() - i,
        {
            let item = items[i];
            sorted.push(item);
            assert(items@[i as int] == item);
            i += 1;
        }
        assert(forall|x: i64| items@.contains(x) ==> sorted@.contains(x));
        sorted
    }
}

impl PartialEq for SortedVec {
    fn eq(&self, other: &Self) -> (r: bool) {
        let r = self.data == other.data;
        proof {
            if r {
                assert(self.data@ =~= other.data@);
            } else {
                if self.data@ == other.data@ {
                    assert(vstd::std_specs::cmp::PartialEqSpec::eq_spec(
                        &self.data,
                        &other.data,
                    )) by {
                        assert(self.data@.len() == other.data@.len());
                        assert(forall|i: int| 0 <= i < self.data@.len()
                            ==> self.data@[i] == other.data@[i]);
                    }
                }
            }
        }
        r
    }
}

impl Eq for SortedVec {
}

impl vstd::std_specs::cmp::PartialEqSpecImpl for SortedVec {
    open spec fn obeys_eq_spec() -> bool {
        true
    }

    open spec fn eq_spec(&self, other: &Self) -> bool {
        self@ == other@
    }
}

/// Two strictly sorted sequences with the same members are the same
/// sequence: the sorted, duplicate-free form of a key set is canonical.
pub proof fn lemma_sorted_unique_canonical(a: Seq<i64>, b: Seq<i64>)
    requires
        strictly_sorted(a),
        strictly_sorted(b),
        forall|x: i64| a.contains(x) <==> b.contains(x),
    ensures
        a == b,
    decreases a.len(),
{
    if a.len() == 0 {
        if b.len() > 0 {
            assert(b.contains(b[0]));
            assert(a.contains(b[0]));
        }
        assert(a =~= b);
    } else {
        assert(a.contains(a[0]));
        assert(b.len() > 0) by {
            assert(b.contains(a[0]));
        }
        assert(a[0] == b[0]) by {
            assert(b.contains(a[0]));
            let i = choose|i: int| 0 <= i < b.len() && b[i] == a[0];
            assert(a.contains(b[0]));
            let k = choose|k: int| 0 <= k < a.len() && a[k] == b[0];
            if a[0] < b[0] {
                assert(b[0] <= b[i]);
            }
            if b[0] < a[0] {
                assert(a[0] <= a[k]);
            }
        }
        let a1 = a.drop_first();
        let b1 = b.drop_first();
        assert(strictly_sorted(a1)) by {
            assert(forall|i: int, j: int| 0 <= i < j < a1.len()
                ==> #[trigger] a1[i] < #[trigger] a1[j]) by {
                assert(forall|i: int| 0 <= i < a1.len() ==> a1[i] == a[i + 1]);
            }
        }
        assert(strictly_sorted(b1)) by {
            assert(forall|i: int, j: int| 0 <= i < j < b1.len()
                ==> #[trigger] b1[i] < #[trigger] b1[j]) by {
                assert(forall|i: int| 0 <= i < b1.len() ==> b1[i] == b[i + 1]);
            }
        }
        lemma_tail_membership(a);
        lemma_tail_membership(b);
        assert forall|x: i64| a1.contains(x) <==> b1.contains(x) by {
            assert(a1.contains(x) <==> (a.contains(x) && x != a[0]));
            assert(b1.contains(x) <==> (b.contains(x) && x != b[0]));
        }
        lemma_sorted_unique_canonical(a1, b1);
        assert(a =~= b) by {
            assert(forall|i: int| 1 <= i < a.len() ==> a[i] == a1[i - 1]);
            assert(forall|i: int| 1 <= i < b.len() ==> b[i] == b1[i - 1]);
        }
    }
}

/// An ordered, deduplicated set of component-type keys naming a storage
/// partition, with a human-readable name recorded beside each key. Its
/// view is the sorted sequence of keys; equality depends on the key set
/// alone, never on insertion order or on the name list.
#[derive(Debug)]
pub struct Archetype {
    types: SortedVec,
    names: Vec<String>,
}

impl View for Archetype {
    type V = Seq<i64>;

    closed spec fn view(&self) -> Seq<i64> {
        self.types@
    }
}

impl Archetype {
    /// The archetype's invariant: keys sorted and unique, one name per key.
    pub open spec fn wf(&self) -> bool {
        strictly_sorted(self@) && self.names_seq().len() == self@.len()
    }

    /// The recorded display names, aligned index by index with the keys.
    pub closed spec fn names_seq(&self) -> Seq<String> {
        self.names@
    }

    pub fn new() -> (r: Self)
        ensures
            r@ == Seq::<i64>::empty(),
            r.wf(),
    {
        Archetype { types: SortedVec::new(), names: Vec::new() }
    }

    /// Record a type key with its display name. Adding a key the archetype
    /// already holds changes nothing; otherwise key and name land at the
    /// key's sorted position.
    pub fn add_type_id(&mut self, type_id: TypeKey, name: String)
        requires
            old(self).wf(),
        ensures
            final(self).wf(),
            forall|x: i64|
                final(self)@.contains(x) <==> (old(self)@.contains(x) || x == type_id),
            old(self)@.contains(type_id) ==> final(self)@ == old(self)@
                && final(self).names_seq() == old(self).names_seq(),
            !old(self)@.contains(type_id) ==> exists|i: int|
                0 <= i <= old(self)@.len() && final(self)@ == old(self)@.insert(i, type_id)
                    && final(self).names_seq() == old(self).names_seq().insert(i, name),
    {
        let inserted = self.types.push(type_id);
        match inserted {
            Option::Some(i) => {
                self.names.insert(i, name);
            },
            Option::None => {},
        }
    }

    /// Record a type key with its display name: the form the engine's
    /// generic entry point reduces to once the runtime type tag is already
    /// in hand as a key.
    pub fn add(&mut self, type_id: TypeKey, name: String)
        requires
            old(self).wf(),
        ensures
            final(self).wf(),
            forall|x: i64|
                final(self)@.contains(x) <==> (old(self)@.contains(x) || x == type_id),
            old(self)@.contains(type_id) ==> final(self)@ == old(self)@
                && final(self).names_seq() == old(self).names_seq(),
            !old(self)@.contains(type_id) ==> exists|i: int|
                0 <= i <= old(self)@.len() && final(self)@ == old(self)@.insert(i, type_id)
                    && final(self).names_seq() == old(self).names_seq().insert(i, name),
    {
        self.add_type_id(type_id, name)
    }

    /// The number of distinct type keys.
    pub fn len(&self) -> (r: usize)
        ensures
            r == self@.len(),
    {
        self.types.len()
    }

    /// Superset test: true iff every key of `other` is also a key of
    /// `self`. This is the basis of query matching.
    pub fn contains(&self, other: &Archetype) -> (r: bool)
        requires
            self.wf(),
            other.wf(),
        ensures
            r == forall|x: i64| other@.contains(x) ==> self@.contains(x),
    {
        self.types.contains(&other.types)
    }

    /// Membership test for one type key.
    pub fn has_type_id(&self, item: &TypeKey) -> (r: bool)
        requires
            self.wf(),
        ensures
            r == self@.contains(*item),
    {
        self.types.has(item)
    }

    /// The recorded display names, sorted-key order.
    pub fn names(&self) -> (r: &Vec<String>)
        ensures
            r@ == self.names_seq(),
    {
        &self.names
    }
}

impl Clone for Archetype {
    fn clone(&self) -> (r: Self)
        ensures
            r@ == self@,
            r.names_seq().len() == self.names_seq().len(),
            self.wf() ==> r.wf(),
    {
        Archetype { types: self.types.clone(), names: self.names.clone() }
    }
}

impl Default for Archetype {
    fn default() -> (r: Self)
        ensures
            r@ == Seq::<i64>::empty(),
            r.wf(),
    {
        Archetype::new()
    }
}

impl PartialEq for Archetype {
    fn eq(&self, other: &Self) -> (r: bool) {
        self.types == other.types
    }
}

impl Eq for Archetype {
}

impl vstd::std_specs::cmp::PartialEqSpecImpl for Archetype {
    open spec fn obeys_eq_spec() -> bool {
        true
    }

    open spec fn eq_spec(&self, other: &Self) -> bool {
        self@ == other@
    }
}

/// Construction order does not matter: two well-formed archetypes holding
/// the same set of type keys are equal, whatever order the keys were added
/// in.
pub proof fn lemma_archetype_order_independent(a: Archetype, b: Archetype)
    requires
        a.wf(),
        b.wf(),
        forall|x: i64| a@.contains(x) <==> b@.contains(x),
    ensures
        a@ == b@,
{
    lemma_sorted_unique_canonical(a@, b@);
}

/// In a strictly sorted sequence the tail holds exactly the members other
/// than the head.
proof fn lemma_tail_membership(a: Seq<i64>)
    requires
        strictly_sorted(a),
        a.len() > 0,
    ensures
        forall|x: i64| a.drop_first().contains(x) <==> (a.contains(x) && x != a[0]),
{
    let t = a.drop_first();
    assert(forall|x: i64| t.contains(x) ==> a.contains(x) && x != a[0]) by {
        assert(forall|i: int| 0 <= i < t.len() ==> t[i] == a[i + 1] && a[0] < a[i + 1]);
        assert(forall|x: i64| #[trigger] t.contains(x) ==> exists|i: int|
            0 <= i < t.len() && t[i] == x);
        assert(forall|i: int| 0 <= i < t.len() ==> a.contains(#[trigger] t[i])) by {
            assert(forall|i: int| 0 <= i < t.len() ==> a[i + 1] == t[i]);
        }
    }
    assert(forall|x: i64| a.contains(x) && x != a[0] ==> t.contains(x)) by {
        assert(forall|i: int| 1 <= i < a.len() ==> t.contains(#[trigger] a[i])) by {
            assert(forall|i: int| 1 <= i < a.len() ==> t[i - 1] == a[i]);
        }
    }
}

} // verus!
