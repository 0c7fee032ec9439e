use vstd::prelude::*;

verus! {

use crate::TypeKey;
use crate::ecs::ECSError;

/// The access state of one stored value: the runtime stand-in for a borrow
/// checker. Transitions move one step at a time: `Idle` to `Shared(1)`,
/// `Shared(n)` to `Shared(n + 1)`, `Idle` to `Exclusive`, and back.
#[derive(Clone, Copy, PartialEq, Eq, Structural, Debug)]
pub enum ReferenceState {
    /// No access is outstanding.
    Idle,
    /// This many shared accesses are outstanding.
    Shared(usize),
    /// One exclusive access is outstanding.
    Exclusive,
}

impl ReferenceState {
    /// A state that can actually arise: a shared count is at least one.
    pub open spec fn wf(self) -> bool {
        match self {
            ReferenceState::Shared(n) => n >= 1,
            _ => true,
        }
    }

    /// The state after granting one more shared access, or `None` when the
    /// request must be refused (an exclusive access is live, or the count
    /// cannot grow).
    pub open spec fn incremented(self) -> Option<ReferenceState> {
        match self {
            ReferenceState::Idle => Some(ReferenceState::Shared(1)),
            ReferenceState::Shared(n) => if n < usize::MAX {
                Some(ReferenceState::Shared((n + 1) as usize))
            } else {
                None
            },
            ReferenceState::Exclusive => None,
        }
    }

    /// The state after granting an exclusive access, or `None` when any
    /// access is live.
    pub open spec fn incremented_mut(self) -> Option<ReferenceState> {
        match self {
            ReferenceState::Idle => Some(ReferenceState::Exclusive),
            _ => None,
        }
    }

    /// The state after releasing one shared access, or `None` when no
    /// shared access is live.
    pub open spec fn decremented(self) -> Option<ReferenceState> {
        match self {
            ReferenceState::Shared(n) => if n > 1 {
                Some(ReferenceState::Shared((n - 1) as usize))
            } else {
                Some(ReferenceState::Idle)
            },
            _ => None,
        }
    }

    /// The state after releasing the exclusive access, or `None` when none
    /// is live.
    pub open spec fn decremented_mut(self) -> Option<ReferenceState> {
        match self {
            ReferenceState::Exclusive => Some(ReferenceState::Idle),
            _ => None,
        }
    }

    /// Request one more shared access.
    pub fn increment(&self) -> (r: Option<ReferenceState>)
        ensures
            r == self.incremented(),
    {
        match self {
            ReferenceState::Idle => Some(ReferenceState::Shared(1)),
            ReferenceState::Shared(n) => if *n < usize::MAX {
                Some(ReferenceState::Shared(*n + 1))
            } else {
                None
            },
            ReferenceState::Exclusive => None,
        }
    }

    /// Request the exclusive access.
    pub fn increment_mut(&self) -> (r: Option<ReferenceState>)
        ensures
            r == self.incremented_mut(),
    {
        match self {
            ReferenceState::Idle => Some(ReferenceState::Exclusive),
            _ => None,
        }
    }

    /// Give one shared access back.
    pub fn decrement(&self) -> (r: Option<ReferenceState>)
        ensures
            r == self.decremented(),
    {
        match self {
            ReferenceState::Shared(n) => if *n > 1 {
                Some(ReferenceState::Shared(*n - 1))
            } else {
                Some(ReferenceState::Idle)
            },
            _ => None,
        }
    }

    /// Give the exclusive access back.
    pub fn decrement_mut(&self) -> (r: Option<ReferenceState>)
        ensures
            r == self.decremented_mut(),
    {
        match self {
            ReferenceState::Exclusive => Some(ReferenceState::Idle),
            _ => None,
        }
    }
}

/// Releasing an access undoes exactly the acquisition it matches: granting
/// a shared access and giving it back, or granting the exclusive access
/// and giving it back, restores precisely the prior state. A shared
/// request while shared accesses are live succeeds and raises the count by
/// one; an exclusive request fails while any access is live; once every
/// access is released the exclusive request succeeds.
pub proof fn lemma_borrow_discipline(s: ReferenceState)
    requires
        s.wf(),
    ensures
        forall|t: ReferenceState| s.incremented() == Some(t) ==> t.decremented() == Some(s),
        forall|t: ReferenceState| s.incremented_mut() == Some(t) ==> t.decremented_mut() == Some(
            s,
        ),
        s matches ReferenceState::Shared(n) ==> (n < usize::MAX ==> s.incremented() == Some(
            ReferenceState::Shared((n + 1) as usize),
        )),
        s != ReferenceState::Idle ==> s.incremented_mut() is None,
        s == ReferenceState::Idle ==> s.incremented_mut() == Some(ReferenceState::Exclusive)
            && s.incremented() == Some(ReferenceState::Shared(1)),
{
}

/// Owns exactly one value together with its access state. Checked accessors
/// step the state; a request the state forbids is refused and changes
/// nothing.
pub struct DynamicCell<V> {
    value: V,
    state: ReferenceState,
}

impl<V> DynamicCell<V> {
    /// The stored value, as the cell's mathematical content.
    pub closed spec fn value_spec(&self) -> V {
        self.value
    }

    /// The current access state.
    pub closed spec fn state_spec(&self) -> ReferenceState {
        self.state
    }

    /// The cell's invariant: its state is one that can arise.
    pub open spec fn wf(&self) -> bool {
        self.state_spec().wf()
    }

    pub fn new(data: V) -> (r: Self)
        ensures
            r.value_spec() == data,
            r.state_spec() == ReferenceState::Idle,
            r.wf(),
    {
        DynamicCell { value: data, state: ReferenceState::Idle }
    }

    /// Read the access state without taking an access.
    pub fn state(&self) -> (r: ReferenceState)
        ensures
            r == self.state_spec(),
    {
        self.state
    }

    /// Acquire a shared access and read the value. The state advances one
    /// shared step; the caller must hand the access back with `release`.
    pub fn get(&mut self) -> (r: Result<&V, ECSError>)
        ensures
            match r {
                Ok(v) => {
                    &&& Some(final(self).state_spec()) == old(self).state_spec().incremented()
                    &&& *v == old(self).value_spec()
                    &&& final(self).value_spec() == old(self).value_spec()
                },
                Err(e) => {
                    &&& e == ECSError::BorrowConflict
                    &&& old(self).state_spec().incremented() is None
                    &&& *final(self) == *old(self)
                },
            },
    {
        match self.state.increment() {
            Some(next) => {
                self.state = next;
                Ok(&self.value)
            },
            None => Err(ECSError::BorrowConflict),
        }
    }

    /// Acquire the exclusive access and get the value to write through.
    /// The caller must hand the access back with `release_mut`.
    pub fn get_mut(&mut self) -> (r: Result<&mut V, ECSError>)
        ensures
            match r {
                Ok(v) => {
                    &&& old(self).state_spec() == ReferenceState::Idle
                    &&& final(self).state_spec() == ReferenceState::Exclusive
                    &&& *v == old(self).value_spec()
                    &&& final(self).value_spec() == *final(v)
                },
                Err(e) => {
                    &&& e == ECSError::BorrowConflict
                    &&& old(self).state_spec() != ReferenceState::Idle
                    &&& *final(self) == *old(self)
                },
            },
    {
        match self.state.increment_mut() {
            Some(next) => {
                self.state = next;
                Ok(&mut self.value)
            },
            None => Err(ECSError::BorrowConflict),
        }
    }

    /// Give one shared access back: the state steps back exactly once.
    pub fn release(&mut self) -> (r: Result<(), ECSError>)
        ensures
            match r {
                Ok(()) => {
                    &&& Some(final(self).state_spec()) == old(self).state_spec().decremented()
                    &&& final(self).value_spec() == old(self).value_spec()
                },
                Err(e) => {
                    &&& e == ECSError::BorrowConflict
                    &&& old(self).state_spec().decremented() is None
                    &&& *final(self) == *old(self)
                },
            },
    {
        match self.state.decrement() {
            Some(next) => {
                self.state = next;
                Ok(())
            },
            None => Err(ECSError::BorrowConflict),
        }
    }

    /// Give the exclusive access back: the state returns to `Idle`.
    pub fn release_mut(&mut self) -> (r: Result<(), ECSError>)
        ensures
            match r {
                Ok(()) => {
                    &&& old(self).state_spec() == ReferenceState::Exclusive
                    &&& final(self).state_spec() == ReferenceState::Idle
                    &&& final(self).value_spec() == old(self).value_spec()
                },
                Err(e) => {
                    &&& e == ECSError::BorrowConflict
                    &&& old(self).state_spec() != ReferenceState::Exclusive
                    &&& *final(self) == *old(self)
                },
            },
    {
        match self.state.decrement_mut() {
            Some(next) => {
                self.state = next;
                Ok(())
            },
            None => Err(ECSError::BorrowConflict),
        }
    }

    /// Read the value without taking an access: the explicit, unchecked
    /// escape hatch. The access gate is bypassed, not consulted.
    pub fn get_unchecked(&self) -> (r: &V)
        ensures
            *r == self.value_spec(),
    {
        &self.value
    }

    /// Write through the value without taking an access: the explicit,
    /// unchecked escape hatch. The access gate is bypassed, not consulted.
    pub fn get_mut_unchecked(&mut self) -> (r: &mut V)
        ensures
            *r == old(self).value_spec(),
            final(self).value_spec() == *final(r),
            final(self).state_spec() == old(self).state_spec(),
    {
        &mut self.value
    }
}

/// Whether some entry of `cells` carries the key `k`.
spec fn has_key<V>(cells: Seq<(i64, DynamicCell<V>)>, k: i64) -> bool {
    exists|i: int| 0 <= i < cells.len() && cells[i].0 == k
}

/// The index of the entry carrying `k`; meaningful only when keys are
/// unique and `k` is present.
spec fn key_index<V>(cells: Seq<(i64, DynamicCell<V>)>, k: i64) -> int {
    choose|i: int| 0 <= i < cells.len() && cells[i].0 == k
}

/// Keys are pairwise distinct and every cell's state can arise.
spec fn cells_wf<V>(cells: Seq<(i64, DynamicCell<V>)>) -> bool {
    &&& forall|i: int, j: int|
        0 <= i < j < cells.len() ==> (#[trigger] cells[i].0) != (#[trigger] cells[j].0)
    &&& forall|i: int| 0 <= i < cells.len() ==> (#[trigger] cells[i]).1.wf()
}

/// With unique keys, an entry holding `k` is the entry `key_index` names.
proof fn lemma_key_index_is<V>(cells: Seq<(i64, DynamicCell<V>)>, k: i64, i: int)
    requires
        cells_wf(cells),
        0 <= i < cells.len(),
        cells[i].0 == k,
    ensures
        has_key(cells, k),
        key_index(cells, k) == i,
{
    assert(has_key(cells, k));
    let j = key_index(cells, k);
    assert(0 <= j < cells.len() && cells[j].0 == k);
    if i < j {
        assert(cells[i].0 != cells[j].0);
    }
    if j < i {
        assert(cells[j].0 != cells[i].0);
    }
}

/// Replacing one entry's cell, key kept, leaves every other key's entry,
/// and the whole key set, as it was.
proof fn lemma_cell_update<V>(a: Seq<(i64, DynamicCell<V>)>, b: Seq<(i64, DynamicCell<V>)>, idx: int)
    requires
        0 <= idx < a.len(),
        b == a.update(idx, (a[idx].0, b[idx].1)),
        cells_wf(a),
        b[idx].1.wf(),
    ensures
        cells_wf(b),
        forall|k: i64| has_key(b, k) == has_key(a, k),
        forall|k: i64| #[trigger] has_key(a, k) ==> key_index(b, k) == key_index(a, k),
        forall|k: i64| has_key(a, k) && k != a[idx].0 ==> b[key_index(a, k)] == a[key_index(
            a,
            k,
        )],
        key_index(a, a[idx].0) == idx,
{
    assert(b.len() == a.len());
    assert(forall|i: int| 0 <= i < a.len() ==> (#[trigger] b[i]).0 == a[i].0);
    assert(cells_wf(b)) by {
        assert(forall|i: int| 0 <= i < b.len() && i != idx ==> #[trigger] b[i] == a[i]);
    }
    assert(forall|k: i64| #[trigger] has_key(a, k) ==> has_key(b, k)) by {
        assert(forall|i: int| 0 <= i < a.len() ==> b[i].0 == (#[trigger] a[i]).0);
    }
    assert(forall|k: i64| #[trigger] has_key(b, k) ==> has_key(a, k)) by {
        assert(forall|i: int| 0 <= i < b.len() ==> a[i].0 == (#[trigger] b[i]).0);
    }
    lemma_key_index_is(a, a[idx].0, idx);
    assert forall|k: i64| #[trigger] has_key(a, k) implies key_index(b, k) == key_index(a, k) by {
        let i = key_index(a, k);
        assert(0 <= i < a.len() && a[i].0 == k);
        lemma_key_index_is(b, k, i);
    }
    assert forall|k: i64| has_key(a, k) && k != a[idx].0 implies b[key_index(a, k)]
        == a[key_index(a, k)] by {
        let i = key_index(a, k);
        assert(0 <= i < a.len() && a[i].0 == k);
        if i == idx {
            assert(k == a[idx].0);
        }
    }
}

/// Appending an entry with a fresh key leaves every old key's entry as it
/// was and adds exactly the new key.
proof fn lemma_cell_push<V>(a: Seq<(i64, DynamicCell<V>)>, entry: (i64, DynamicCell<V>))
    requires
        cells_wf(a),
        !has_key(a, entry.0),
        entry.1.wf(),
    ensures
        cells_wf(a.push(entry)),
        has_key(a.push(entry), entry.0),
        key_index(a.push(entry), entry.0) == a.len(),
        forall|k: i64| k != entry.0 ==> has_key(a.push(entry), k) == has_key(a, k),
        forall|k: i64| #[trigger] has_key(a, k) ==> key_index(a.push(entry), k) == key_index(
            a,
            k,
        ) && a.push(entry)[key_index(a, k)] == a[key_index(a, k)],
{
    let b = a.push(entry);
    assert(forall|i: int| 0 <= i < a.len() ==> #[trigger] b[i] == a[i]);
    assert(b[a.len() as int] == entry);
    assert(cells_wf(b)) by {
        assert forall|i: int, j: int| 0 <= i < j < b.len() implies (#[trigger] b[i].0) != (
        #[trigger] b[j].0) by {
            if j == a.len() {
                if b[i].0 == entry.0 {
                    assert(has_key(a, entry.0));
                }
            }
        }
    }
    lemma_key_index_is(b, entry.0, a.len() as int);
    assert forall|k: i64| k != entry.0 && #[trigger] has_key(b, k) implies has_key(a, k) by {
        let i = key_index(b, k);
        assert(0 <= i < b.len() && b[i].0 == k);
        assert(i != a.len());
        assert(a[i].0 == k);
    }
    assert forall|k: i64| #[trigger] has_key(a, k) implies key_index(b, k) == key_index(a, k)
        && b[key_index(a, k)] == a[key_index(a, k)] by {
        let i = key_index(a, k);
        assert(0 <= i < a.len() && a[i].0 == k);
        lemma_key_index_is(b, k, i);
    }
}

/// A type-erased container holding at most one value per type key, each
/// behind its own access gate. Serves both as an entity's component store
/// and as the world's resource store.
pub struct DynamicStore<V> {
    cells: Vec<(i64, DynamicCell<V>)>,
}

impl<V> DynamicStore<V> {
    /// Whether a value of this type key is stored.
    pub closed spec fn spec_has(&self, key: TypeKey) -> bool {
        has_key(self.cells@, key)
    }

    /// The stored value for this key (meaningful when `spec_has` holds).
    pub closed spec fn spec_value(&self, key: TypeKey) -> V {
        self.cells@[key_index(self.cells@, key)].1.value_spec()
    }

    /// The access state of the value for this key.
    pub closed spec fn spec_state(&self, key: TypeKey) -> ReferenceState {
        self.cells@[key_index(self.cells@, key)].1.state_spec()
    }

    /// The store's invariant: one cell per key, all gates well formed.
    pub closed spec fn wf(&self) -> bool {
        cells_wf(self.cells@)
    }

    /// The number of stored values.
    pub closed spec fn spec_len(&self) -> nat {
        self.cells@.len()
    }

    /// The other store holds the same keys, values and access states as
    /// this one everywhere but at `key`.
    pub open spec fn agrees_except(&self, other: &Self, key: TypeKey) -> bool {
        &&& forall|k: i64| k != key ==> (#[trigger] other.spec_has(k)) == self.spec_has(k)
        &&& forall|k: i64|
            k != key && self.spec_has(k) ==> (#[trigger] other.spec_value(k)) == self.spec_value(
                k,
            )
        &&& forall|k: i64|
            k != key && self.spec_has(k) ==> (#[trigger] other.spec_state(k)) == self.spec_state(
                k,
            )
    }

    /// The other store holds exactly the same keys, values and access
    /// states as this one.
    pub open spec fn agrees(&self, other: &Self) -> bool {
        &&& forall|k: i64| (#[trigger] other.spec_has(k)) == self.spec_has(k)
        &&& forall|k: i64|
            self.spec_has(k) ==> (#[trigger] other.spec_value(k)) == self.spec_value(k)
        &&& forall|k: i64|
            self.spec_has(k) ==> (#[trigger] other.spec_state(k)) == self.spec_state(k)
    }

    pub fn new() -> (r: Self)
        ensures
            r.wf(),
            forall|k: i64| !r.spec_has(k),
            r.spec_len() == 0,
    {
        DynamicStore { cells: Vec::new() }
    }

    /// The index of the entry holding `key`, if any.
    fn find(&self, key: TypeKey) -> (r: Option<usize>)
        requires
            self.wf(),
        ensures
            match r {
                Some(i) => {
                    &&& i < self.cells@.len()
                    &&& self.cells@[i as int].0 == key
                    &&& self.spec_has(key)
                    &&& key_index(self.cells@, key) == i
                },
                None => !self.spec_has(key),
            },
    {
        let mut i: usize = 0;

        while i < self.cells.len()
            invariant
                self.wf(),
                i <= self.cells@.len(),
                forall|m: int| 0 <= m < i ==> (#[trigger] self.cells@[m]).0 != key,
            decreases self.cells@.len() - i,
        {
            if self.cells[i].0 == key {
                proof {
                    lemma_key_index_is(self.cells@, key, i as int);
                }
                return Some(i);
            }
            i += 1;
        }
        proof {
            if self.spec_has(key) {
                let w = choose|w: int|
                    0 <= w < self.cells@.len() && self.cells@[w].0 == key;
            }
        }
        None
    }

    /// Store a value under its type key; at most one value per key may be
    /// stored, so a second insertion fails and changes nothing.
    pub fn insert(&mut self, key: TypeKey, data: V) -> (r: Result<(), ECSError>)
        requires
            old(self).wf(),
        ensures
            final(self).wf(),
            match r {
                Ok(()) => {
                    &&& !old(self).spec_has(key)
                    &&& final(self).spec_has(key)
                    &&& final(self).spec_value(key) == data
                    &&& final(self).spec_state(key) == ReferenceState::Idle
                    &&& final(self).spec_len() == old(self).spec_len() + 1
                    &&& old(self).agrees_except(final(self), key)
                },
                Err(e) => {
                    &&& e == ECSError::DataAlreadyExists
                    &&& old(self).spec_has(key)
                    &&& *final(self) == *old(self)
                },
            },
    {
        match self.find(key) {
            Some(_) => Err(ECSError::DataAlreadyExists),
            None => {
                let cell = DynamicCell::new(data);
                proof {
                    lemma_cell_push(self.cells@, (key, cell));
                }
                self.cells.push((key, cell));
                Ok(())
            },
        }
    }

    /// Whether a value of this type key is stored; never takes an access.
    pub fn has_type_id(&self, type_id: &TypeKey) -> (r: bool)
        requires
            self.wf(),
        ensures
            r == self.spec_has(*type_id),
    {
        self.find(*type_id).is_some()
    }

    /// Whether a value of this type key is stored; never takes an access.
    pub fn has(&self, key: TypeKey) -> (r: bool)
        requires
            self.wf(),
        ensures
            r == self.spec_has(key),
    {
        self.has_type_id(&key)
    }

    /// The access state of the value stored under `key`, if any.
    pub fn state_of(&self, key: TypeKey) -> (r: Option<ReferenceState>)
        requires
            self.wf(),
        ensures
            match r {
                Some(s) => self.spec_has(key) && s == self.spec_state(key),
                None => !self.spec_has(key),
            },
    {
        match self.find(key) {
            Some(i) => Some(self.cells[i].1.state()),
            None => None,
        }
    }

    /// Acquire a shared access to the value stored under `key` and read
    /// it. Fails without taking anything when the key is absent or the
    /// gate refuses.
    pub fn get(&mut self, key: TypeKey) -> (r: Result<&V, ECSError>)
        requires
            old(self).wf(),
        ensures
            final(self).wf(),
            match r {
                Ok(v) => {
                    &&& old(self).spec_has(key)
                    &&& *v == old(self).spec_value(key)
                    &&& final(self).spec_has(key)
                    &&& final(self).spec_value(key) == old(self).spec_value(key)
                    &&& Some(final(self).spec_state(key)) == old(self).spec_state(
                        key,
                    ).incremented()
                    &&& final(self).spec_len() == old(self).spec_len()
                    &&& old(self).agrees_except(final(self), key)
                },
                Err(e) => {
                    &&& old(self).agrees(final(self))
                    &&& final(self).spec_len() == old(self).spec_len()
                    &&& (e == ECSError::CouldNotRetrieve <==> !old(self).spec_has(key))
                    &&& (e == ECSError::BorrowConflict <==> old(self).spec_has(key) && old(
                        self,
                    ).spec_state(key).incremented() is None)
                    &&& (e == ECSError::CouldNotRetrieve || e == ECSError::BorrowConflict)
                },
            },
    {
        let idx = match self.find(key) {
            Some(i) => i,
            None => {
                return Err(ECSError::CouldNotRetrieve);
            },
        };
        let ghost a = self.cells@;
        let cell = &mut self.cells[idx].1;
        let res = cell.get();
        match res {
            Ok(v) => {
                proof {
                    lemma_cell_update(a, after_borrow(self).cells@, idx as int);
                }
                Ok(v)
            },
            Err(e) => {
                proof {
                    lemma_cell_update(a, after_borrow(self).cells@, idx as int);
                }
                Err(e)
            },
        }
    }

    /// Acquire the exclusive access to the value stored under `key` and
    /// get it to write through. Fails without taking anything when the key
    /// is absent or any access is live.
    pub fn get_mut(&mut self, key: TypeKey) -> (r: Result<&mut V, ECSError>)
        requires
            old(self).wf(),
        ensures
            final(self).wf(),
            match r {
                Ok(v) => {
                    &&& old(self).spec_has(key)
                    &&& old(self).spec_state(key) == ReferenceState::Idle
                    &&& *v == old(self).spec_value(key)
                    &&& final(self).spec_has(key)
                    &&& final(self).spec_value(key) == *final(v)
                    &&& final(self).spec_state(key) == ReferenceState::Exclusive
                    &&& final(self).spec_len() == old(self).spec_len()
                    &&& old(self).agrees_except(final(self), key)
                },
                Err(e) => {
                    &&& old(self).agrees(final(self))
                    &&& final(self).spec_len() == old(self).spec_len()
                    &&& (e == ECSError::CouldNotRetrieve <==> !old(self).spec_has(key))
                    &&& (e == ECSError::BorrowConflict <==> old(self).spec_has(key) && old(
                        self,
                    ).spec_state(key) != ReferenceState::Idle)
                    &&& (e == ECSError::CouldNotRetrieve || e == ECSError::BorrowConflict)
                },
            },
    {
        let idx = match self.find(key) {
            Some(i) => i,
            None => {
                return Err(ECSError::CouldNotRetrieve);
            },
        };
        let ghost a = self.cells@;
        let cell = &mut self.cells[idx].1;
        let res = cell.get_mut();
        match res {
            Ok(v) => {
                proof {
                    lemma_cell_update(a, after_borrow(self).cells@, idx as int);
                }
                Ok(v)
            },
            Err(e) => {
                proof {
                    lemma_cell_update(a, after_borrow(self).cells@, idx as int);
                }
                Err(e)
            },
        }
    }

    /// Give one shared access to the value under `key` back.
    pub fn release(&mut self, key: TypeKey) -> (r: Result<(), ECSError>)
        requires
            old(self).wf(),
        ensures
            final(self).wf(),
            match r {
                Ok(()) => {
                    &&& old(self).spec_has(key)
                    &&& final(self).spec_has(key)
                    &&& final(self).spec_value(key) == old(self).spec_value(key)
                    &&& Some(final(self).spec_state(key)) == old(self).spec_state(
                        key,
                    ).decremented()
                    &&& final(self).spec_len() == old(self).spec_len()
                    &&& old(self).agrees_except(final(self), key)
                },
                Err(e) => {
                    &&& old(self).agrees(final(self))
                    &&& final(self).spec_len() == old(self).spec_len()
                    &&& (e == ECSError::CouldNotRetrieve <==> !old(self).spec_has(key))
                    &&& (e == ECSError::BorrowConflict <==> old(self).spec_has(key) && old(
                        self,
                    ).spec_state(key).decremented() is None)
                    &&& (e == ECSError::CouldNotRetrieve || e == ECSError::BorrowConflict)
                },
            },
    {
        let idx = match self.find(key) {
            Some(i) => i,
            None => {
                return Err(ECSError::CouldNotRetrieve);
            },
        };
        let ghost a = self.cells@;
        let cell = &mut self.cells[idx].1;
        let res = cell.release();
        proof {
            lemma_cell_update(a, self.cells@, idx as int);
        }
        res
    }

    /// Give the exclusive access to the value under `key` back.
    pub fn release_mut(&mut self, key: TypeKey) -> (r: Result<(), ECSError>)
        requires
            old(self).wf(),
        ensures
            final(self).wf(),
            match r {
                Ok(()) => {
                    &&& old(self).spec_has(key)
                    &&& old(self).spec_state(key) == ReferenceState::Exclusive
                    &&& final(self).spec_has(key)
                    &&& final(self).spec_value(key) == old(self).spec_value(key)
                    &&& final(self).spec_state(key) == ReferenceState::Idle
                    &&& final(self).spec_len() == old(self).spec_len()
                    &&& old(self).agrees_except(final(self), key)
                },
                Err(e) => {
                    &&& old(self).agrees(final(self))
                    &&& final(self).spec_len() == old(self).spec_len()
                    &&& (e == ECSError::CouldNotRetrieve <==> !old(self).spec_has(key))
                    &&& (e == ECSError::BorrowConflict <==> old(self).spec_has(key) && old(
                        self,
                    ).spec_state(key) != ReferenceState::Exclusive)
                    &&& (e == ECSError::CouldNotRetrieve || e == ECSError::BorrowConflict)
                },
            },
    {
        let idx = match self.find(key) {
            Some(i) => i,
            None => {
                return Err(ECSError::CouldNotRetrieve);
            },
        };
        let ghost a = self.cells@;
        let cell = &mut self.cells[idx].1;
        let res = cell.release_mut();
        proof {
            lemma_cell_update(a, self.cells@, idx as int);
        }
        res
    }
}

} // verus!
