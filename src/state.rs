//! The registry of rooms and peer sessions, and its model as maps.

use crate::config::Config;
use crate::protocol::strs;
use vstd::prelude::*;

verus! {

/// A named group of peers.
pub struct Room {
    pub id: String,
    /// Member identities, each at most once.
    pub users: Vec<String>,
    /// Creation time in milliseconds.
    pub created_at: u64,
}

/// The routing state of one live connection.
pub struct PeerSession {
    pub id: String,
    /// The room the peer is in, if any.
    pub room_id: Option<String>,
    /// Connection time in milliseconds.
    pub connected_at: u64,
}

/// All rooms and peer sessions of the server, with its settings.
pub struct AppState {
    pub rooms: Vec<Room>,
    pub peers: Vec<PeerSession>,
    pub config: Config,
}

/// The registry as maps: each room's members and creation time, and each
/// registered peer's recorded room.
pub struct Registry {
    pub rooms: Map<Seq<char>, RoomView>,
    pub peers: Map<Seq<char>, Option<Seq<char>>>,
}

impl Registry {
    /// A peer records room `r` exactly when `r` lists it; rooms are non-empty
    /// and list each member once.
    pub open spec fn consistent(self) -> bool {
        &&& forall|p: Seq<char>|
            #[trigger] self.peers.contains_key(p) && self.peers[p] is Some ==> {
                let r = self.peers[p]->0;
                self.rooms.contains_key(r) && self.rooms[r].members.contains(p)
            }
        &&& forall|r: Seq<char>, p: Seq<char>|
            self.rooms.contains_key(r) && #[trigger] self.rooms[r].members.contains(p) ==> {
                self.peers.contains_key(p) && self.peers[p] == Some(r)
            }
        &&& forall|r: Seq<char>|
            #[trigger] self.rooms.contains_key(r) ==> self.rooms[r].members.no_duplicates()
                && self.rooms[r].members.len() > 0
    }

    /// The room that peer `p` records, if `p` is registered and in one.
    pub open spec fn room_of(self, p: Seq<char>) -> Option<Seq<char>> {
        if self.peers.contains_key(p) {
            self.peers[p]
        } else {
            None
        }
    }
}

/// What the registry knows of a room.
pub struct RoomView {
    pub members: Seq<Seq<char>>,
    pub created_at: u64,
}

impl Room {
    pub open spec fn members(&self) -> Seq<Seq<char>> {
        strs(self.users@)
    }

    pub open spec fn view_of(self) -> RoomView {
        RoomView { members: self.members(), created_at: self.created_at }
    }

    /// An empty room created at `now`.
    pub fn new(id: String, now: u64) -> (r: Room)
        ensures
            r.id@ == id@,
            r.users@.len() == 0,
            r.created_at == now,
    {
        Room { id, users: Vec::new(), created_at: now }
    }
}

impl PeerSession {
    pub open spec fn room(self) -> Option<Seq<char>> {
        match self.room_id {
            Some(r) => Some(r@),
            None => None,
        }
    }
}

impl AppState {
    pub open spec fn model(&self) -> Registry {
        Registry {
            rooms: keyed(self.rooms@, room_key(), room_val()),
            peers: keyed(self.peers@, peer_key(), peer_val()),
        }
    }

    /// Room and peer identities are unique and the model is consistent.
    pub open spec fn wf(&self) -> bool {
        &&& keys_unique(self.rooms@, room_key())
        &&& keys_unique(self.peers@, peer_key())
        &&& self.model().consistent()
    }

    /// An empty registry with the given settings.
    pub fn new(config: Config) -> (r: AppState)
        ensures
            r.wf(),
            r.model().rooms.is_empty(),
            r.model().peers.is_empty(),
            r.config == config,
    {
        let r = AppState { rooms: Vec::new(), peers: Vec::new(), config };
        assert(r.model().rooms =~= Map::empty());
        assert(r.model().peers =~= Map::empty());
        r
    }
}

pub open spec fn room_key() -> spec_fn(Room) -> Seq<char> {
    |r: Room| r.id@
}

pub open spec fn room_val() -> spec_fn(Room) -> RoomView {
    |r: Room| r.view_of()
}

pub open spec fn peer_key() -> spec_fn(PeerSession) -> Seq<char> {
    |p: PeerSession| p.id@
}

pub open spec fn peer_val() -> spec_fn(PeerSession) -> Option<Seq<char>> {
    |p: PeerSession| p.room()
}

/// No two entries share a key.
pub open spec fn keys_unique<T>(s: Seq<T>, key: spec_fn(T) -> Seq<char>) -> bool {
    forall|i: int, j: int|
        0 <= i < s.len() && 0 <= j < s.len() && #[trigger] key(s[i]) == #[trigger] key(s[j])
            ==> i == j
}

pub open spec fn has_key<T>(s: Seq<T>, key: spec_fn(T) -> Seq<char>, k: Seq<char>) -> bool {
    exists|i: int| 0 <= i < s.len() && #[trigger] key(s[i]) == k
}

/// The map from each entry's key to its value.
pub open spec fn keyed<T, V>(
    s: Seq<T>,
    key: spec_fn(T) -> Seq<char>,
    val: spec_fn(T) -> V,
) -> Map<Seq<char>, V> {
    Map::new(
        |k: Seq<char>| has_key(s, key, k),
        |k: Seq<char>| val(s[choose|i: int| 0 <= i < s.len() && #[trigger] key(s[i]) == k]),
    )
}

pub proof fn lemma_keyed_index<T, V>(
    s: Seq<T>,
    key: spec_fn(T) -> Seq<char>,
    val: spec_fn(T) -> V,
    i: int,
)
    requires
        keys_unique(s, key),
        0 <= i < s.len(),
    ensures
        keyed(s, key, val).contains_key(key(s[i])),
        keyed(s, key, val)[key(s[i])] == val(s[i]),
{
    let k = key(s[i]);
    assert(has_key(s, key, k));
    let j = choose|j: int| 0 <= j < s.len() && #[trigger] key(s[j]) == k;
    assert(i == j);
}

pub proof fn lemma_keyed_update<T, V>(
    s: Seq<T>,
    key: spec_fn(T) -> Seq<char>,
    val: spec_fn(T) -> V,
    i: int,
    x: T,
)
    requires
        keys_unique(s, key),
        0 <= i < s.len(),
        key(x) == key(s[i]),
    ensures
        keys_unique(s.update(i, x), key),
        keyed(s.update(i, x), key, val) == keyed(s, key, val).insert(key(x), val(x)),
{
    let t = s.update(i, x);
    assert forall|a: int, b: int|
        0 <= a < t.len() && 0 <= b < t.len() && #[trigger] key(t[a]) == #[trigger] key(t[b])
        implies a == b by {
        assert(key(t[a]) == key(s[a]));
        assert(key(t[b]) == key(s[b]));
    }
    assert forall|k: Seq<char>| has_key(t, key, k) <==> has_key(s, key, k) by {
        if has_key(t, key, k) {
            let a = choose|a: int| 0 <= a < t.len() && #[trigger] key(t[a]) == k;
            assert(key(s[a]) == k);
        }
        if has_key(s, key, k) {
            let a = choose|a: int| 0 <= a < s.len() && #[trigger] key(s[a]) == k;
            assert(key(t[a]) == k);
        }
    }
    let m1 = keyed(t, key, val);
    let m2 = keyed(s, key, val).insert(key(x), val(x));
    assert forall|k: Seq<char>| #[trigger] m1.contains_key(k) implies m1[k] == m2[k] by {
        let a = choose|a: int| 0 <= a < t.len() && #[trigger] key(t[a]) == k;
        lemma_keyed_index(t, key, val, a);
        if a != i {
            lemma_keyed_index(s, key, val, a);
        }
    }
    assert(m1 =~= m2);
}

pub proof fn lemma_keyed_push<T, V>(
    s: Seq<T>,
    key: spec_fn(T) -> Seq<char>,
    val: spec_fn(T) -> V,
    x: T,
)
    requires
        keys_unique(s, key),
        !has_key(s, key, key(x)),
    ensures
        keys_unique(s.push(x), key),
        keyed(s.push(x), key, val) == keyed(s, key, val).insert(key(x), val(x)),
{
    let t = s.push(x);
    assert forall|a: int, b: int|
        0 <= a < t.len() && 0 <= b < t.len() && #[trigger] key(t[a]) == #[trigger] key(t[b])
        implies a == b by {
        if a < s.len() {
            assert(key(s[a]) == key(t[a]));
        }
        if b < s.len() {
            assert(key(s[b]) == key(t[b]));
        }
    }
    assert forall|k: Seq<char>| has_key(t, key, k) <==> (has_key(s, key, k) || k == key(x)) by {
        if has_key(t, key, k) {
            let a = choose|a: int| 0 <= a < t.len() && #[trigger] key(t[a]) == k;
            if a < s.len() {
                assert(key(s[a]) == k);
            }
        }
        if has_key(s, key, k) {
            let a = choose|a: int| 0 <= a < s.len() && #[trigger] key(s[a]) == k;
            assert(key(t[a]) == k);
        }
        if k == key(x) {
            assert(key(t[s.len() as int]) == k);
        }
    }
    let m1 = keyed(t, key, val);
    let m2 = keyed(s, key, val).insert(key(x), val(x));
    assert forall|k: Seq<char>| #[trigger] m1.contains_key(k) implies m1[k] == m2[k] by {
        let a = choose|a: int| 0 <= a < t.len() && #[trigger] key(t[a]) == k;
        lemma_keyed_index(t, key, val, a);
        if a < s.len() {
            lemma_keyed_index(s, key, val, a);
        }
    }
    assert(m1 =~= m2);
}

pub proof fn lemma_keyed_remove<T, V>(
    s: Seq<T>,
    key: spec_fn(T) -> Seq<char>,
    val: spec_fn(T) -> V,
    i: int,
)
    requires
        keys_unique(s, key),
        0 <= i < s.len(),
    ensures
        keys_unique(s.remove(i), key),
        keyed(s.remove(i), key, val) == keyed(s, key, val).remove(key(s[i])),
{
    let t = s.remove(i);
    let ix = |a: int| if a < i { a } else { a + 1 };
    assert forall|a: int| 0 <= a < t.len() implies t[a] == s[ix(a)] by {}
    assert forall|a: int, b: int|
        0 <= a < t.len() && 0 <= b < t.len() && #[trigger] key(t[a]) == #[trigger] key(t[b])
        implies a == b by {
        assert(key(s[ix(a)]) == key(s[ix(b)]));
    }
    assert forall|k: Seq<char>| has_key(t, key, k) <==> (has_key(s, key, k) && k != key(s[i])) by {
        if has_key(t, key, k) {
            let a = choose|a: int| 0 <= a < t.len() && #[trigger] key(t[a]) == k;
            assert(key(s[ix(a)]) == k);
        }
        if has_key(s, key, k) && k != key(s[i]) {
            let a = choose|a: int| 0 <= a < s.len() && #[trigger] key(s[a]) == k;
            if a < i {
                assert(key(t[a]) == k);
            } else {
                assert(key(t[a - 1]) == k);
            }
        }
    }
    let m1 = keyed(t, key, val);
    let m2 = keyed(s, key, val).remove(key(s[i]));
    assert forall|k: Seq<char>| #[trigger] m1.contains_key(k) implies m1[k] == m2[k] by {
        let a = choose|a: int| 0 <= a < t.len() && #[trigger] key(t[a]) == k;
        lemma_keyed_index(t, key, val, a);
        lemma_keyed_index(s, key, val, ix(a));
    }
    assert(m1 =~= m2);
}

pub proof fn lemma_keyed_pointwise<T, V>(
    s: Seq<T>,
    t: Seq<T>,
    key: spec_fn(T) -> Seq<char>,
    val: spec_fn(T) -> V,
    f: spec_fn(V) -> V,
)
    requires
        keys_unique(s, key),
        s.len() == t.len(),
        forall|a: int| 0 <= a < s.len() ==> #[trigger] key(t[a]) == key(s[a]),
        forall|a: int| 0 <= a < s.len() ==> #[trigger] val(t[a]) == f(val(s[a])),
    ensures
        keys_unique(t, key),
        keyed(t, key, val) == keyed(s, key, val).map_values(f),
{
    assert forall|a: int, b: int|
        0 <= a < t.len() && 0 <= b < t.len() && #[trigger] key(t[a]) == #[trigger] key(t[b])
        implies a == b by {
        assert(key(s[a]) == key(s[b]));
    }
    assert forall|k: Seq<char>| has_key(t, key, k) <==> has_key(s, key, k) by {
        if has_key(t, key, k) {
            let a = choose|a: int| 0 <= a < t.len() && #[trigger] key(t[a]) == k;
            assert(key(s[a]) == k);
        }
        if has_key(s, key, k) {
            let a = choose|a: int| 0 <= a < s.len() && #[trigger] key(s[a]) == k;
            assert(key(t[a]) == k);
        }
    }
    let m1 = keyed(t, key, val);
    let m2 = keyed(s, key, val).map_values(f);
    assert forall|k: Seq<char>| #[trigger] m1.contains_key(k) implies m1[k] == m2[k] by {
        let a = choose|a: int| 0 <= a < t.len() && #[trigger] key(t[a]) == k;
        lemma_keyed_index(t, key, val, a);
        lemma_keyed_index(s, key, val, a);
    }
    assert(m1 =~= m2);
}

} // verus!
