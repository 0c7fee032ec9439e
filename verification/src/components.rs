use vstd::prelude::*;

verus! {

use crate::TypeKey;
use crate::map::TileMap;
use crate::systems::TickInfo;
use crate::vectors::Vector;

/// The type key under which a `Position` component is stored.
pub const POSITION_KEY: TypeKey = 1;

/// The type key under which a `Named` component is stored.
pub const NAMED_KEY: TypeKey = 2;

/// The type key under which a `Debug` component is stored.
pub const DEBUG_KEY: TypeKey = 3;

/// The type key under which a `Camera` component is stored.
pub const CAMERA_KEY: TypeKey = 4;

/// The type key under which a `Player` component is stored.
pub const PLAYER_KEY: TypeKey = 5;

/// The type key under which the `TickInfo` resource is stored.
pub const TICK_INFO_KEY: TypeKey = 6;

/// The type key under which the `TileMap` resource is stored.
pub const TILE_MAP_KEY: TypeKey = 7;

/// One value of any component or resource type the library defines; what
/// an entity's store or the world's resource store holds.
pub enum Component {
    Position(Position),
    Named(Named),
    Debug(Debug),
    Camera(Camera),
    Player(Player),
    TickInfo(TickInfo),
    TileMap(TileMap),
}

/// Where an entity stands, and how strongly it claims its tile when
/// several entities share one.
#[derive(Copy, Clone, PartialEq, Eq, Structural, Debug)]
pub struct Position {
    position: Vector,
    priority: u8,
}

impl Position {
    /// The coordinates.
    pub closed spec fn coords_spec(&self) -> Vector {
        self.position
    }

    /// The drawing priority.
    pub closed spec fn priority_spec(&self) -> u8 {
        self.priority
    }

    pub fn new(x: i32, y: i32, priority: u8) -> (r: Self)
        ensures
            r.coords_spec() == (Vector { x, y }),
            r.priority_spec() == priority,
    {
        Position { position: Vector::new(x, y), priority }
    }

    /// The coordinates.
    pub fn coords(&self) -> (r: Vector)
        ensures
            r == self.coords_spec(),
    {
        self.position
    }

    /// The drawing priority.
    pub fn priority(&self) -> (r: u8)
        ensures
            r == self.priority_spec(),
    {
        self.priority
    }

    /// Move onto the given tile if it is on the map and walkable; report
    /// whether the move happened.
    pub fn try_set(&mut self, map: &TileMap, new_position: Vector) -> (r: bool)
        requires
            map.wf(),
        ensures
            r == (map.spec_in_bounds(new_position) && map.spec_tile_at(
                new_position.x as int,
                new_position.y as int,
            ).strength_spec() == 0),
            r ==> final(self).coords_spec() == new_position,
            !r ==> final(self).coords_spec() == old(self).coords_spec(),
            final(self).priority_spec() == old(self).priority_spec(),
    {
        match map.get(&new_position) {
            Some(tile) => {
                if tile.walkable() {
                    self.position = new_position;
                    true
                } else {
                    false
                }
            },
            None => false,
        }
    }

    /// Step by `delta` if the target tile is on the map and walkable;
    /// report whether the move happened.
    pub fn try_move(&mut self, map: &TileMap, delta: Vector) -> (r: bool)
        requires
            map.wf(),
            i32::MIN <= old(self).coords_spec().x + delta.x <= i32::MAX,
            i32::MIN <= old(self).coords_spec().y + delta.y <= i32::MAX,
        ensures
            ({
                let target = Vector {
                    x: (old(self).coords_spec().x + delta.x) as i32,
                    y: (old(self).coords_spec().y + delta.y) as i32,
                };
                &&& r == (map.spec_in_bounds(target) && map.spec_tile_at(
                    target.x as int,
                    target.y as int,
                ).strength_spec() == 0)
                &&& (r ==> final(self).coords_spec() == target)
                &&& (!r ==> final(self).coords_spec() == old(self).coords_spec())
                &&& final(self).priority_spec() == old(self).priority_spec()
            }),
    {
        let target = self.position.add(delta);
        self.try_set(map, target)
    }
}

/// How serious a diagnostic message is, least to most.
#[derive(Copy, Clone, PartialEq, Eq, Structural, Debug)]
pub enum DebugLevel {
    Silent,
    Info,
    Warning,
    Error,
    Critical,
}

impl DebugLevel {
    /// The level's place in the severity order, least to most.
    pub open spec fn rank_spec(self) -> u8 {
        match self {
            DebugLevel::Silent => 0,
            DebugLevel::Info => 1,
            DebugLevel::Warning => 2,
            DebugLevel::Error => 3,
            DebugLevel::Critical => 4,
        }
    }

    /// The level's place in the severity order, least to most.
    pub fn rank(&self) -> (r: u8)
        ensures
            r == self.rank_spec(),
    {
        match self {
            DebugLevel::Silent => 0,
            DebugLevel::Info => 1,
            DebugLevel::Warning => 2,
            DebugLevel::Error => 3,
            DebugLevel::Critical => 4,
        }
    }
}

/// One diagnostic message: its severity, the subject it concerns, and the
/// text.
pub struct DebugMessage {
    pub level: DebugLevel,
    pub reason: String,
    pub message: String,
}

impl DebugMessage {
    pub fn new(level: DebugLevel, reason: String, message: String) -> (r: Self)
        ensures
            r.level == level,
            r.reason == reason,
            r.message == message,
    {
        DebugMessage { level, reason, message }
    }
}

/// Whether some entry of `entries` carries the reason `key`.
spec fn has_reason(entries: Seq<(String, DebugMessage)>, key: Seq<char>) -> bool {
    exists|i: int| 0 <= i < entries.len() && entries[i].0@ == key
}

/// The index of the entry carrying `key`; meaningful when reasons are
/// unique and `key` is present.
spec fn reason_index(entries: Seq<(String, DebugMessage)>, key: Seq<char>) -> int {
    choose|i: int| 0 <= i < entries.len() && entries[i].0@ == key
}

/// A diagnostic inbox: the highest severity seen since the last clear,
/// and at most one message per reason, the newest kept.
pub struct Debug {
    pub max_level: DebugLevel,
    messages: Vec<(String, DebugMessage)>,
}

impl Debug {
    /// The highest severity seen since the last clear.
    pub closed spec fn max_level_spec(&self) -> DebugLevel {
        self.max_level
    }

    /// The stored messages, keyed by reason, insertion order.
    pub closed spec fn messages_spec(&self) -> Seq<(String, DebugMessage)> {
        self.messages@
    }

    /// Whether a message with this reason is stored.
    pub closed spec fn spec_has_reason(&self, key: Seq<char>) -> bool {
        has_reason(self.messages@, key)
    }

    /// The stored message for this reason (meaningful when present).
    pub closed spec fn spec_message_for(&self, key: Seq<char>) -> DebugMessage {
        self.messages@[reason_index(self.messages@, key)].1
    }

    /// The inbox invariant: one message per reason.
    pub closed spec fn wf(&self) -> bool {
        forall|i: int, j: int|
            0 <= i < j < self.messages@.len() ==> (#[trigger] self.messages@[i]).0@ != (
            #[trigger] self.messages@[j]).0@
    }

    pub fn new() -> (r: Self)
        ensures
            r.wf(),
            r.max_level_spec() == DebugLevel::Silent,
            r.messages_spec() == Seq::<(String, DebugMessage)>::empty(),
    {
        Debug { max_level: DebugLevel::Silent, messages: Vec::new() }
    }

    /// Drop every message and reset the highest severity seen.
    pub fn clear(&mut self)
        ensures
            final(self).wf(),
            final(self).max_level_spec() == DebugLevel::Silent,
            final(self).messages_spec() == Seq::<(String, DebugMessage)>::empty(),
    {
        self.max_level = DebugLevel::Silent;
        self.messages = Vec::new();
    }

    /// File a message under its reason, displacing any earlier message
    /// with the same reason, and raise the highest severity seen if this
    /// one tops it.
    pub fn add_message(&mut self, level: DebugLevel, reason: String, message: String)
        requires
            old(self).wf(),
        ensures
            final(self).wf(),
            final(self).max_level_spec() == (if level.rank_spec() >= old(
                self,
            ).max_level_spec().rank_spec() {
                level
            } else {
                old(self).max_level_spec()
            }),
            final(self).spec_has_reason(reason@),
            final(self).spec_message_for(reason@).level == level,
            final(self).spec_message_for(reason@).reason@ == reason@,
            final(self).spec_message_for(reason@).message == message,
            forall|k: Seq<char>|
                k != reason@ ==> (#[trigger] final(self).spec_has_reason(k)) == old(self).spec_has_reason(k),
            forall|k: Seq<char>|
                k != reason@ && old(self).spec_has_reason(k) ==> (#[trigger] final(self).spec_message_for(k)) == old(self).spec_message_for(k),
            final(self).messages_spec().len() == old(self).messages_spec().len() + (
            if old(self).spec_has_reason(reason@) {
                0int
            } else {
                1int
            }),
    {
        if level.rank() >= self.max_level.rank() {
            self.max_level = level;
        }

        let mut i: usize = 0;
        let n = self.messages.len();

        while i < n
            invariant
                self.wf(),
                self.messages@ == old(self).messages@,
                self.max_level_spec() == (if level.rank_spec() >= old(
                    self,
                ).max_level_spec().rank_spec() {
                    level
                } else {
                    old(self).max_level_spec()
                }),
                n == self.messages@.len(),
                i <= n,
                forall|m: int| 0 <= m < i ==> (#[trigger] self.messages@[m]).0@ != reason@,
            decreases n - i,
        {
            if compare_strings(&self.messages[i].0, &reason) {
                let ghost a = self.messages@;
                let entry = &mut self.messages[i];
                entry.1 = DebugMessage::new(level, reason_clone(&reason), message);
                proof {
                    lemma_reason_entries(a, self.messages@, i as int);
                }
                return ;
            }
            i += 1;
        }
        proof {
            if has_reason(self.messages@, reason@) {
                let w = choose|w: int|
                    0 <= w < self.messages@.len() && self.messages@[w].0@ == reason@;
            }
        }
        let ghost a = self.messages@;
        let msg = DebugMessage::new(level, reason_clone(&reason), message);
        self.messages.push((reason, msg));
        proof {
            let b = self.messages@;
            assert(forall|m: int| 0 <= m < a.len() ==> #[trigger] b[m] == a[m]);
            assert(has_reason(b, b[a.len() as int].0@));
            lemma_reason_index_is(b, b[a.len() as int].0@, a.len() as int);
            assert forall|k: Seq<char>| k != b[a.len() as int].0@ && #[trigger] has_reason(
                b,
                k,
            ) implies has_reason(a, k) by {
                let w = choose|w: int| 0 <= w < b.len() && b[w].0@ == k;
                assert(w != a.len());
                assert(a[w].0@ == k);
            }
            assert forall|k: Seq<char>| #[trigger] has_reason(a, k) implies reason_index(b, k)
                == reason_index(a, k) && has_reason(b, k) by {
                let w = reason_index(a, k);
                assert(0 <= w < a.len() && a[w].0@ == k);
                lemma_reason_index_is(b, k, w);
            }
        }
    }

    /// The highest severity seen since the last clear.
    pub fn max_level(&self) -> (r: DebugLevel)
        ensures
            r == self.max_level_spec(),
    {
        self.max_level
    }

    /// How many messages are stored.
    pub fn count(&self) -> (r: usize)
        ensures
            r == self.messages_spec().len(),
    {
        self.messages.len()
    }

    /// The stored messages, keyed by reason, insertion order.
    pub fn messages(&self) -> (r: &Vec<(String, DebugMessage)>)
        ensures
            r@ == self.messages_spec(),
    {
        &self.messages
    }
}

/// With unique reasons, an entry holding `key` is the entry
/// `reason_index` names.
proof fn lemma_reason_index_is(entries: Seq<(String, DebugMessage)>, key: Seq<char>, i: int)
    requires
        forall|x: int, y: int|
            0 <= x < y < entries.len() ==> (#[trigger] entries[x]).0@ != (
            #[trigger] entries[y]).0@,
        0 <= i < entries.len(),
        entries[i].0@ == key,
    ensures
        has_reason(entries, key),
        reason_index(entries, key) == i,
{
    assert(has_reason(entries, key));
    let j = reason_index(entries, key);
    assert(0 <= j < entries.len() && entries[j].0@ == key);
    if i < j {
        assert(entries[i].0@ != entries[j].0@);
    }
    if j < i {
        assert(entries[j].0@ != entries[i].0@);
    }
}

/// Replacing one entry's message, reason kept, leaves every other
/// reason's entry as it was.
proof fn lemma_reason_entries(
    a: Seq<(String, DebugMessage)>,
    b: Seq<(String, DebugMessage)>,
    idx: int,
)
    requires
        0 <= idx < a.len(),
        b == a.update(idx, (a[idx].0, b[idx].1)),
        forall|x: int, y: int|
            0 <= x < y < a.len() ==> (#[trigger] a[x]).0@ != (#[trigger] a[y]).0@,
    ensures
        forall|x: int, y: int|
            0 <= x < y < b.len() ==> (#[trigger] b[x]).0@ != (#[trigger] b[y]).0@,
        forall|k: Seq<char>| has_reason(b, k) == has_reason(a, k),
        forall|k: Seq<char>| #[trigger] has_reason(a, k) ==> reason_index(b, k) == reason_index(
            a,
            k,
        ),
        forall|k: Seq<char>|
            has_reason(a, k) && k != a[idx].0@ ==> b[reason_index(a, k)] == a[reason_index(
                a,
                k,
            )],
        reason_index(a, a[idx].0@) == idx,
{
    assert(b.len() == a.len());
    assert(forall|i: int| 0 <= i < a.len() ==> (#[trigger] b[i]).0 == a[i].0);
    assert(forall|i: int| 0 <= i < b.len() && i != idx ==> #[trigger] b[i] == a[i]);
    assert(forall|k: Seq<char>| #[trigger] has_reason(a, k) ==> has_reason(b, k)) by {
        assert(forall|i: int| 0 <= i < a.len() ==> b[i].0@ == (#[trigger] a[i]).0@);
    }
    assert(forall|k: Seq<char>| #[trigger] has_reason(b, k) ==> has_reason(a, k)) by {
        assert(forall|i: int| 0 <= i < b.len() ==> a[i].0@ == (#[trigger] b[i]).0@);
    }
    lemma_reason_index_is(a, a[idx].0@, idx);
    assert forall|k: Seq<char>| #[trigger] has_reason(a, k) implies reason_index(b, k)
        == reason_index(a, k) by {
        let i = reason_index(a, k);
        assert(0 <= i < a.len() && a[i].0@ == k);
        lemma_reason_index_is(b, k, i);
    }
    assert forall|k: Seq<char>| has_reason(a, k) && k != a[idx].0@ implies b[reason_index(a, k)]
        == a[reason_index(a, k)] by {
        let i = reason_index(a, k);
        if i == idx {
            assert(k == a[idx].0@);
        }
    }
}

/// Whether two strings hold the same characters.
fn compare_strings(a: &String, b: &String) -> (r: bool)
    ensures
        r == (a@ == b@),
{
    *a == *b
}

/// A fresh string with the same characters.
fn reason_clone(s: &String) -> (r: String)
    ensures
        r@ == s@,
{
    s.clone()
}

/// A name to show for an entity.
pub struct Named {
    pub name: String,
}

impl Named {
    pub fn new(name: String) -> (r: Self)
        ensures
            r.name == name,
    {
        Named { name }
    }
}

/// Marks the entity the view follows.
pub struct Camera {
}

impl Camera {
    pub fn new() -> (r: Self) {
        Camera {  }
    }
}

/// Marks the entity the player controls.
pub struct Player {
}

impl Player {
    pub fn new() -> (r: Self) {
        Player {  }
    }
}

} // verus!
