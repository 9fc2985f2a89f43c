//! Joining and leaving rooms, and the sweep that evicts old rooms.

use crate::text::{trim, trim_of};
use crate::protocol::{clone_strings, sent, strs, Delivery, MessageView, ServerMessage};
use crate::state::{
    keyed, keys_unique, lemma_keyed_index, lemma_keyed_pointwise, lemma_keyed_push, lemma_keyed_remove, lemma_keyed_update, peer_key,
    peer_val, room_key, room_val, AppState, PeerSession, Registry, Room, RoomView,
};
use vstd::prelude::*;

verus! {

/// The same message to each of `to`, in order.
pub open spec fn broadcast_to(to: Seq<Seq<char>>, m: MessageView) -> Seq<(Seq<char>, MessageView)> {
    to.map_values(|x: Seq<char>| (x, m))
}

/// The registry once peer `p` has left the room it is in: the room loses `p`
/// and is deleted if nobody remains; `p` records no room.
pub open spec fn leave_spec(g: Registry, p: Seq<char>) -> Registry {
    match g.room_of(p) {
        None => g,
        Some(r) => {
            let rest = g.rooms[r].members.remove_value(p);
            Registry {
                rooms: if rest.len() == 0 {
                    g.rooms.remove(r)
                } else {
                    g.rooms.insert(r, RoomView { members: rest, created_at: g.rooms[r].created_at })
                },
                peers: g.peers.insert(p, None),
            }
        },
    }
}

/// What leaving sends: `UserLeft` to each remaining member, then the new
/// member list to each of them if any remain.
pub open spec fn leave_msgs(g: Registry, p: Seq<char>) -> Seq<(Seq<char>, MessageView)> {
    match g.room_of(p) {
        None => seq![],
        Some(r) => {
            let rest = g.rooms[r].members.remove_value(p);
            broadcast_to(rest, MessageView::UserLeft { socket_id: p }) + if rest.len() > 0 {
                broadcast_to(rest, MessageView::RoomUsers { users: rest })
            } else {
                seq![]
            }
        },
    }
}

pub proof fn lemma_remove_value_no_dup(s: Seq<Seq<char>>, p: Seq<char>)
    requires
        s.no_duplicates(),
    ensures
        s.remove_value(p).no_duplicates(),
        forall|x: Seq<char>| #[trigger] s.remove_value(p).contains(x) <==> (s.contains(x) && x != p),
        s.contains(p) ==> s.remove_value(p).len() == s.len() - 1,
        !s.contains(p) ==> s.remove_value(p) == s,
        forall|k: int| 0 <= k < s.len() && s[k] == p ==> s.remove_value(p) == s.remove(k),
{
    s.index_of_first_ensures(p);
    match s.index_of_first(p) {
        Some(i) => {
            let t = s.remove(i);
            assert forall|x: Seq<char>| #[trigger] t.contains(x) <==> (s.contains(x) && x != p) by {
                if t.contains(x) {
                    let a = choose|a: int| 0 <= a < t.len() && t[a] == x;
                    if a < i {
                        assert(s[a] == x);
                    } else {
                        assert(s[a + 1] == x);
                    }
                }
                if s.contains(x) && x != p {
                    let a = choose|a: int| 0 <= a < s.len() && s[a] == x;
                    if a < i {
                        assert(t[a] == x);
                    } else {
                        assert(t[a - 1] == x);
                    }
                }
            }
        },
        None => {},
    }
}

/// Leaving keeps the registry consistent.
pub proof fn lemma_leave_consistent(g: Registry, p: Seq<char>)
    requires
        g.consistent(),
    ensures
        leave_spec(g, p).consistent(),
        leave_spec(g, p).room_of(p) is None,
        leave_spec(g, p).peers.dom() == g.peers.dom(),
{
    if let Some(r) = g.room_of(p) {
        let members = g.rooms[r].members;
        lemma_remove_value_no_dup(members, p);
        let h = leave_spec(g, p);
        assert forall|q: Seq<char>| #[trigger] h.peers.contains_key(q) && h.peers[q] is Some implies {
            let r2 = h.peers[q]->0;
            h.rooms.contains_key(r2) && h.rooms[r2].members.contains(q)
        } by {
            let r2 = g.peers[q]->0;
            if r2 == r {
                assert(members.remove_value(p).contains(q));
            }
        }
        assert forall|r2: Seq<char>, q: Seq<char>|
            h.rooms.contains_key(r2) && #[trigger] h.rooms[r2].members.contains(q) implies {
            h.peers.contains_key(q) && h.peers[q] == Some(r2)
        } by {
            if r2 == r {
                assert(members.contains(q));
            } else {
                assert(g.rooms[r2].members.contains(q));
                if q == p {
                    assert(false);
                }
            }
        }
        assert(h.peers.dom() =~= g.peers.dom());
    }
}

/// Whether room `r` (empty if absent) is at capacity and `p` is not in it.
pub open spec fn join_full(g: Registry, p: Seq<char>, r: Seq<char>, max: nat) -> bool {
    members_before(g, r).len() >= max && !members_before(g, r).contains(p)
}

/// The registry once `p` has left any room other than `r`.
pub open spec fn leave_other(g: Registry, p: Seq<char>, r: Seq<char>) -> Registry {
    if g.room_of(p) is Some && g.room_of(p) != Some(r) {
        leave_spec(g, p)
    } else {
        g
    }
}

/// The members of `r` before `p` joins.
pub open spec fn members_before(g: Registry, r: Seq<char>) -> Seq<Seq<char>> {
    if g.rooms.contains_key(r) {
        g.rooms[r].members
    } else {
        seq![]
    }
}

/// The members of `r` once `p` has joined: `p` is added unless present.
pub open spec fn members_after(g: Registry, p: Seq<char>, r: Seq<char>) -> Seq<Seq<char>> {
    let m = members_before(g, r);
    if m.contains(p) {
        m
    } else {
        m.push(p)
    }
}

/// The registry once peer `p` has joined room `r` at time `now`. An unknown
/// peer changes nothing, nor does a full room that `p` is not in. Otherwise
/// `p` leaves any other room, room `r` is created if absent, lists `p`, and
/// `p` records `r`.
pub open spec fn join_spec(g: Registry, p: Seq<char>, r: Seq<char>, max: nat, now: u64) -> Registry {
    if !g.peers.contains_key(p) || join_full(g, p, r, max) {
        g
    } else {
        let g0 = leave_other(g, p, r);
        let created = if g0.rooms.contains_key(r) {
            g0.rooms[r].created_at
        } else {
            now
        };
        Registry {
            rooms: g0.rooms.insert(
                r,
                RoomView { members: members_after(g0, p, r), created_at: created },
            ),
            peers: g0.peers.insert(p, Some(r)),
        }
    }
}

/// What joining sends. To a full room: `RoomFull` to `p` alone. Otherwise,
/// after what leaving another room sends: to `p` the members already there
/// and the confirmation with the new count; `PeerJoined` to each member
/// already there; the whole new member list to every member.
pub open spec fn join_msgs(g: Registry, p: Seq<char>, r: Seq<char>, max: nat) -> Seq<
    (Seq<char>, MessageView),
> {
    if !g.peers.contains_key(p) {
        seq![]
    } else if join_full(g, p, r, max) {
        seq![(p, MessageView::RoomFull { room_id: r })]
    } else {
        let pre = if g.room_of(p) is Some && g.room_of(p) != Some(r) {
            leave_msgs(g, p)
        } else {
            seq![]
        };
        let g0 = leave_other(g, p, r);
        let existing = members_before(g0, r).remove_value(p);
        let members = members_after(g0, p, r);
        pre + seq![
            (p, MessageView::RoomUsers { users: existing }),
            (p, MessageView::JoinedRoom { room_id: r, socket_id: p, user_count: members.len() }),
        ] + broadcast_to(existing, MessageView::PeerJoined { socket_id: p, room_id: r })
            + broadcast_to(members, MessageView::RoomUsers { users: members })
    }
}

/// Joining keeps the registry consistent.
pub proof fn lemma_join_consistent(g: Registry, p: Seq<char>, r: Seq<char>, max: nat, now: u64)
    requires
        g.consistent(),
    ensures
        join_spec(g, p, r, max, now).consistent(),
{
    if g.peers.contains_key(p) && !join_full(g, p, r, max) {
        let g0 = leave_other(g, p, r);
        if g.room_of(p) is Some && g.room_of(p) != Some(r) {
            lemma_leave_consistent(g, p);
        }
        assert(g0.consistent());
        assert(g0.peers.contains_key(p));
        let m0 = members_before(g0, r);
        let m1 = members_after(g0, p, r);
        assert(m1.no_duplicates()) by {
            if !m0.contains(p) {
                assert forall|a: int, b: int| 0 <= a < m1.len() && 0 <= b < m1.len() && a != b implies m1[a] != m1[b] by {
                    if a < m0.len() && b < m0.len() {
                    } else if a == m0.len() {
                        assert(m0.contains(m1[b]));
                    } else {
                        assert(m0.contains(m1[a]));
                    }
                }
            }
        }
        assert(forall|q: Seq<char>| #[trigger] m1.contains(q) <==> (m0.contains(q) || q == p)) by {
            assert forall|q: Seq<char>| #[trigger] m1.contains(q) implies (m0.contains(q) || q == p) by {
                if !m0.contains(p) {
                    let a = choose|a: int| 0 <= a < m1.len() && m1[a] == q;
                    if a < m0.len() {
                        assert(m0[a] == q);
                    }
                }
            }
            assert forall|q: Seq<char>| m0.contains(q) || q == p implies #[trigger] m1.contains(q) by {
                if !m0.contains(p) {
                    if q == p {
                        assert(m1[m0.len() as int] == q);
                    } else {
                        let a = choose|a: int| 0 <= a < m0.len() && m0[a] == q;
                        assert(m1[a] == q);
                    }
                }
            }
        }
        let h = join_spec(g, p, r, max, now);
        assert forall|q: Seq<char>| #[trigger] h.peers.contains_key(q) && h.peers[q] is Some implies {
            let r2 = h.peers[q]->0;
            h.rooms.contains_key(r2) && h.rooms[r2].members.contains(q)
        } by {
            if q != p {
                let r2 = g0.peers[q]->0;
                assert(g0.rooms.contains_key(r2) && g0.rooms[r2].members.contains(q));
                if r2 == r {
                    assert(m0.contains(q));
                }
            }
        }
        assert forall|r2: Seq<char>, q: Seq<char>|
            h.rooms.contains_key(r2) && #[trigger] h.rooms[r2].members.contains(q) implies {
            h.peers.contains_key(q) && h.peers[q] == Some(r2)
        } by {
            if r2 == r {
                if q != p {
                    assert(m0.contains(q));
                    assert(g0.rooms[r].members.contains(q));
                }
            } else {
                assert(g0.rooms[r2].members.contains(q));
                if q == p {
                    assert(g0.peers[p] == Some(r2));
                    assert(false);
                }
            }
        }
    }
}

/// Leaving when in no room changes nothing and sends nothing; so a second
/// leave right after a first is a no-op.
pub proof fn lemma_leave_idempotent(g: Registry, p: Seq<char>)
    requires
        g.consistent(),
    ensures
        g.room_of(p) is None ==> leave_spec(g, p) == g,
        g.room_of(p) is None ==> leave_msgs(g, p) == Seq::<(Seq<char>, MessageView)>::empty(),
        leave_spec(leave_spec(g, p), p) == leave_spec(g, p),
        leave_msgs(leave_spec(g, p), p) == Seq::<(Seq<char>, MessageView)>::empty(),
{
    lemma_leave_consistent(g, p);
}

/// A new identity joining a room at capacity gets `RoomFull` and changes
/// nothing; a member joining again leaves the member list as it was.
pub proof fn lemma_join_capacity(g: Registry, p: Seq<char>, r: Seq<char>, max: nat, now: u64)
    requires
        g.consistent(),
        g.peers.contains_key(p),
        g.rooms.contains_key(r),
        g.rooms[r].members.len() >= max,
    ensures
        !g.rooms[r].members.contains(p) ==> join_spec(g, p, r, max, now) == g,
        !g.rooms[r].members.contains(p) ==> join_msgs(g, p, r, max) == seq![
            (p, MessageView::RoomFull { room_id: r }),
        ],
        g.rooms[r].members.contains(p) ==> join_spec(g, p, r, max, now).rooms[r] == g.rooms[r],
        g.rooms[r].members.contains(p) ==> join_spec(g, p, r, max, now).peers == g.peers,
{
    if g.rooms[r].members.contains(p) {
        assert(g.peers[p] == Some(r));
        assert(leave_other(g, p, r) == g);
        assert(g.peers.insert(p, Some(r)) =~= g.peers);
    }
}

/// A join never takes a room past `max` members: a room within capacity
/// before the join is within it after.
pub proof fn lemma_join_within_capacity(g: Registry, p: Seq<char>, r: Seq<char>, max: nat, now: u64)
    requires
        g.consistent(),
        members_before(g, r).len() <= max,
    ensures
        members_before(join_spec(g, p, r, max, now), r).len() <= max,
{
    if g.peers.contains_key(p) && !join_full(g, p, r, max) {
        let g0 = leave_other(g, p, r);
        if g.room_of(p) is Some && g.room_of(p) != Some(r) {
            lemma_leave_consistent(g, p);
            assert(members_before(g0, r) == members_before(g, r));
        }
    }
}

/// When the last member leaves, the room is gone; a later join under the
/// same name makes a fresh room created at the time of that join.
pub proof fn lemma_room_lifecycle(
    g: Registry,
    p: Seq<char>,
    r: Seq<char>,
    q: Seq<char>,
    max: nat,
    now: u64,
)
    requires
        g.consistent(),
        g.room_of(p) == Some(r),
        g.rooms[r].members.len() == 1,
        leave_spec(g, p).peers.contains_key(q),
        max > 0,
    ensures
        !leave_spec(g, p).rooms.contains_key(r),
        join_spec(leave_spec(g, p), q, r, max, now).rooms[r] == (RoomView {
            members: seq![q],
            created_at: now,
        }),
{
    let members = g.rooms[r].members;
    lemma_remove_value_no_dup(members, p);
    lemma_leave_consistent(g, p);
    let h = leave_spec(g, p);
    assert(!h.rooms.contains_key(r));
    let h0 = leave_other(h, q, r);
    if h.room_of(q) is Some && h.room_of(q) != Some(r) {
        lemma_leave_consistent(h, q);
    }
    assert(!h0.rooms.contains_key(r));
    assert(members_before(h0, r) =~= seq![]);
    assert(members_after(h0, q, r) =~= seq![q]);
}

/// Finds the room with identity `r`.
pub(crate) fn find_room(rooms: &Vec<Room>, r: &String) -> (res: Option<usize>)
    ensures
        match res {
            Some(i) => i < rooms@.len() && rooms@[i as int].id@ == r@,
            None => !keyed(rooms@, room_key(), room_val()).contains_key(r@),
        },
{
    let mut i: usize = 0;
    while i < rooms.len()
        invariant
            i <= rooms@.len(),
            forall|k: int| 0 <= k < i ==> rooms@[k].id@ != r@,
        decreases rooms.len() - i,
    {
        if rooms[i].id == *r {
            return Some(i);
        }
        i += 1;
    }
    None
}

/// Finds the session of peer `p`.
pub(crate) fn find_peer(peers: &Vec<PeerSession>, p: &String) -> (res: Option<usize>)
    ensures
        match res {
            Some(j) => j < peers@.len() && peers@[j as int].id@ == p@,
            None => !keyed(peers@, peer_key(), peer_val()).contains_key(p@),
        },
{
    let mut j: usize = 0;
    while j < peers.len()
        invariant
            j <= peers@.len(),
            forall|k: int| 0 <= k < j ==> peers@[k].id@ != p@,
        decreases peers.len() - j,
    {
        if peers[j].id == *p {
            return Some(j);
        }
        j += 1;
    }
    None
}

/// Finds `p` in a member list.
fn find_member(users: &Vec<String>, p: &String) -> (res: Option<usize>)
    ensures
        match res {
            Some(k) => k < users@.len() && strs(users@)[k as int] == p@,
            None => !strs(users@).contains(p@),
        },
{
    let mut k: usize = 0;
    while k < users.len()
        invariant
            k <= users@.len(),
            forall|a: int| 0 <= a < k ==> users@[a]@ != p@,
        decreases users.len() - k,
    {
        if users[k] == *p {
            return Some(k);
        }
        k += 1;
    }
    None
}

/// Sends `msg` to each of `to`, in order.
pub(crate) fn broadcast(out: &mut Vec<Delivery>, to: &Vec<String>, msg: &ServerMessage)
    ensures
        sent(final(out)@) == sent(old(out)@) + broadcast_to(strs(to@), msg@),
{
    let ghost o = out@;
    let mut i: usize = 0;
    while i < to.len()
        invariant
            i <= to@.len(),
            out@.len() == o.len() + i,
            forall|k: int| 0 <= k < o.len() ==> out@[k] == o[k],
            forall|k: int| 0 <= k < i ==> (#[trigger] out@[o.len() + k])@ == (to@[k]@, msg@),
        decreases to.len() - i,
    {
        out.push(Delivery { to: to[i].clone(), message: crate::protocol::clone_message(msg) });
        i += 1;
    }
    assert forall|k: int| 0 <= k < out@.len() implies #[trigger] sent(out@)[k] == (sent(o) + broadcast_to(strs(to@), msg@))[k] by {
        if k >= o.len() {
            assert(out@[o.len() + (k - o.len())]@ == (to@[k - o.len()]@, msg@));
        }
    }
    assert(sent(out@) =~= sent(o) + broadcast_to(strs(to@), msg@));
}

/// `users` without `p`.
fn without(users: &Vec<String>, p: &String) -> (r: Vec<String>)
    ensures
        strs(r@) == strs(users@).remove_value(p@),
{
    let mut r = clone_strings(users);
    let mut k: usize = 0;
    while k < r.len()
        invariant
            k <= r@.len(),
            strs(r@) == strs(users@),
            forall|a: int| 0 <= a < k ==> strs(users@)[a] != p@,
        decreases r.len() - k,
    {
        if r[k] == *p {
            r.remove(k);
            proof {
                let s = strs(users@);
                assert(s[k as int] == p@);
                assert(s.contains(p@));
                s.index_of_first_ensures(p@);
                let idx = s.index_of_first(p@)->0;
                assert(s[idx] == p@);
                assert(idx == k);
                assert(strs(r@) =~= s.remove(k as int));
            }
            return r;
        }
        k += 1;
    }
    proof {
        let s = strs(users@);
        s.index_of_first_ensures(p@);
        if s.contains(p@) {
            let a = choose|a: int| 0 <= a < s.len() && s[a] == p@;
            assert(false);
        }
    }
    r
}

/// Takes the peer at index `j` out of the room at index `i`, which it records.
fn leave_at(state: &mut AppState, j: usize, i: usize, out: &mut Vec<Delivery>)
    requires
        old(state).wf(),
        j < old(state).peers@.len(),
        i < old(state).rooms@.len(),
        old(state).peers@[j as int].room() == Some(old(state).rooms@[i as int].id@),
    ensures
        final(state).wf(),
        final(state).model() == leave_spec(old(state).model(), old(state).peers@[j as int].id@),
        sent(final(out)@) == sent(old(out)@) + leave_msgs(
            old(state).model(),
            old(state).peers@[j as int].id@,
        ),
        final(state).config == old(state).config,
        final(state).peers@.len() == old(state).peers@.len(),
        forall|k: int|
            0 <= k < final(state).peers@.len() ==> (#[trigger] final(state).peers@[k]).id@
                == old(state).peers@[k].id@,
{
    let ghost g = state.model();
    let ghost p = state.peers@[j as int].id@;
    let ghost r = state.rooms@[i as int].id@;
    let ghost rooms0 = state.rooms@;
    let ghost peers0 = state.peers@;
    proof {
        lemma_keyed_index(peers0, peer_key(), peer_val(), j as int);
        lemma_keyed_index(rooms0, room_key(), room_val(), i as int);
        assert(g.room_of(p) == Some(r));
        lemma_leave_consistent(g, p);
        lemma_remove_value_no_dup(g.rooms[r].members, p);
    }
    let pid = state.peers[j].id.clone();
    let connected_at = state.peers[j].connected_at;
    let mut room = state.rooms.remove(i);
    room.users = without(&room.users, &pid);
    broadcast(out, &room.users, &ServerMessage::UserLeft { socket_id: pid.clone() });
    if room.users.len() > 0 {
        let users = clone_strings(&room.users);
        broadcast(out, &room.users, &ServerMessage::RoomUsers { users });
        state.rooms.insert(i, room);
        proof {
            assert(state.rooms@ =~= rooms0.update(i as int, room));
            lemma_keyed_update(rooms0, room_key(), room_val(), i as int, room);
        }
    } else {
        proof {
            lemma_keyed_remove(rooms0, room_key(), room_val(), i as int);
        }
    }
    let session = PeerSession { id: pid, room_id: None, connected_at };
    state.peers.set(j, session);
    proof {
        lemma_keyed_update(peers0, peer_key(), peer_val(), j as int, session);
        assert(state.model().rooms == leave_spec(g, p).rooms);
        assert(state.model().peers == leave_spec(g, p).peers);
    }
}

/// Takes peer `peer_id` out of room `room_id` if that is the room it records.
pub fn leave_room_internal(state: &mut AppState, peer_id: &String, room_id: &String) -> (out: Vec<
    Delivery,
>)
    requires
        old(state).wf(),
    ensures
        final(state).wf(),
        final(state).config == old(state).config,
        old(state).model().room_of(peer_id@) == Some(room_id@) ==> {
            &&& final(state).model() == leave_spec(old(state).model(), peer_id@)
            &&& sent(out@) == leave_msgs(old(state).model(), peer_id@)
        },
        old(state).model().room_of(peer_id@) != Some(room_id@) ==> {
            &&& final(state).model() == old(state).model()
            &&& out@.len() == 0
        },
{
    let mut out: Vec<Delivery> = Vec::new();
    let ghost g = state.model();
    if let Some(j) = find_peer(&state.peers, peer_id) {
        proof {
            lemma_keyed_index(state.peers@, peer_key(), peer_val(), j as int);
        }
        let recorded = match &state.peers[j].room_id {
            Some(r) => *r == *room_id,
            None => false,
        };
        if recorded {
            if let Some(i) = find_room(&state.rooms, room_id) {
                leave_at(state, j, i, &mut out);
                proof {
                    assert(sent(out@) =~= leave_msgs(g, peer_id@));
                }
            }
        }
    }
    out
}

/// Takes peer `peer_id` out of the room it is in, if any.
pub fn handle_leave_room(state: &mut AppState, peer_id: &String) -> (out: Vec<Delivery>)
    requires
        old(state).wf(),
    ensures
        final(state).wf(),
        final(state).config == old(state).config,
        final(state).model() == leave_spec(old(state).model(), peer_id@),
        sent(out@) == leave_msgs(old(state).model(), peer_id@),
{
    let mut out: Vec<Delivery> = Vec::new();
    let ghost g = state.model();
    if let Some(j) = find_peer(&state.peers, peer_id) {
        proof {
            lemma_keyed_index(state.peers@, peer_key(), peer_val(), j as int);
        }
        let room_id = match &state.peers[j].room_id {
            Some(r) => Some(r.clone()),
            None => None,
        };
        if let Some(r) = room_id {
            if let Some(i) = find_room(&state.rooms, &r) {
                leave_at(state, j, i, &mut out);
                proof {
                    assert(sent(out@) =~= leave_msgs(g, peer_id@));
                }
            }
        }
    }
    proof {
        if g.room_of(peer_id@) is None {
            assert(sent(out@) =~= leave_msgs(g, peer_id@));
        }
    }
    out
}

/// Peer `peer_id` joins the room named by `room_id` without surrounding
/// white space, at time `now`.
pub fn handle_join_room(state: &mut AppState, peer_id: &String, room_id: &str, now: u64) -> (out:
    Vec<Delivery>)
    requires
        old(state).wf(),
    ensures
        final(state).wf(),
        final(state).config == old(state).config,
        final(state).model() == join_spec(
            old(state).model(),
            peer_id@,
            trim_of(room_id@),
            old(state).config.room.max_size as nat,
            now,
        ),
        sent(out@) == join_msgs(
            old(state).model(),
            peer_id@,
            trim_of(room_id@),
            old(state).config.room.max_size as nat,
        ),
{
    let r = trim(room_id);
    let max_size = state.config.room.max_size;
    let ghost g = state.model();
    let ghost p = peer_id@;
    let ghost max = max_size as nat;
    let mut out: Vec<Delivery> = Vec::new();
    let j = match find_peer(&state.peers, peer_id) {
        Some(j) => j,
        None => {
            return out;
        },
    };
    proof {
        lemma_keyed_index(state.peers@, peer_key(), peer_val(), j as int);
    }
    let full = match find_room(&state.rooms, &r) {
        Some(i) => {
            proof {
                lemma_keyed_index(state.rooms@, room_key(), room_val(), i as int);
            }
            state.rooms[i].users.len() >= max_size && find_member(&state.rooms[i].users, peer_id).is_none()
        },
        None => max_size == 0,
    };
    if full {
        out.push(Delivery { to: peer_id.clone(), message: ServerMessage::RoomFull { room_id: r } });
        proof {
            assert(sent(out@) =~= join_msgs(g, p, r@, max));
        }
        return out;
    }
    let other = match &state.peers[j].room_id {
        Some(r0) => if !(*r0 == r) {
            Some(r0.clone())
        } else {
            None
        },
        None => None,
    };
    if let Some(r0) = other {
        if let Some(i0) = find_room(&state.rooms, &r0) {
            leave_at(state, j, i0, &mut out);
        }
    }
    let ghost g0 = state.model();
    let ghost pre = sent(out@);
    proof {
        assert(g0 == leave_other(g, p, r@));
        lemma_keyed_index(state.peers@, peer_key(), peer_val(), j as int);
        lemma_join_consistent(g, p, r@, max, now);
    }
    let existing: Vec<String>;
    let members: Vec<String>;
    match find_room(&state.rooms, &r) {
        Some(i) => {
            let ghost rooms1 = state.rooms@;
            proof {
                lemma_keyed_index(rooms1, room_key(), room_val(), i as int);
            }
            let mut room = state.rooms.remove(i);
            existing = without(&room.users, peer_id);
            if find_member(&room.users, peer_id).is_none() {
                room.users.push(peer_id.clone());
                proof {
                    assert(strs(room.users@) =~= members_before(g0, r@).push(p));
                }
            }
            members = clone_strings(&room.users);
            state.rooms.insert(i, room);
            proof {
                assert(state.rooms@ =~= rooms1.update(i as int, room));
                lemma_keyed_update(rooms1, room_key(), room_val(), i as int, room);
            }
        },
        None => {
            let mut room = Room::new(r.clone(), now);
            room.users.push(peer_id.clone());
            existing = Vec::new();
            members = clone_strings(&room.users);
            let ghost rooms1 = state.rooms@;
            proof {
                assert(strs(room.users@) =~= members_before(g0, r@).push(p));
                members_before(g0, r@).index_of_first_ensures(p);
                assert(strs(existing@) =~= members_before(g0, r@).remove_value(p));
                lemma_keyed_push(rooms1, room_key(), room_val(), room);
            }
            state.rooms.push(room);
        },
    }
    let count = members.len();
    out.push(Delivery { to: peer_id.clone(), message: ServerMessage::RoomUsers { users: clone_strings(&existing) } });
    out.push(
        Delivery {
            to: peer_id.clone(),
            message: ServerMessage::JoinedRoom {
                room_id: r.clone(),
                socket_id: peer_id.clone(),
                user_count: count,
            },
        },
    );
    let ghost mid = sent(out@);
    proof {
        assert(mid =~= pre + seq![
            (p, MessageView::RoomUsers { users: members_before(g0, r@).remove_value(p) }),
            (p, MessageView::JoinedRoom { room_id: r@, socket_id: p, user_count: members_after(g0, p, r@).len() }),
        ]);
    }
    broadcast(&mut out, &existing, &ServerMessage::PeerJoined { socket_id: peer_id.clone(), room_id: r.clone() });
    let all = clone_strings(&members);
    broadcast(&mut out, &members, &ServerMessage::RoomUsers { users: all });
    let pid = state.peers[j].id.clone();
    let connected_at = state.peers[j].connected_at;
    let session = PeerSession { id: pid, room_id: Some(r), connected_at };
    let ghost peers1 = state.peers@;
    state.peers.set(j, session);
    proof {
        lemma_keyed_update(peers1, peer_key(), peer_val(), j as int, session);
        assert(state.model().rooms == join_spec(g, p, r@, max, now).rooms);
        assert(state.model().peers == join_spec(g, p, r@, max, now).peers);
        assert(sent(out@) =~= join_msgs(g, p, r@, max));
    }
    out
}

/// The age at `now` of a room created at `v.created_at`; zero if the clock
/// reads earlier than its creation.
pub open spec fn room_age(v: RoomView, now: u64) -> nat {
    if now >= v.created_at {
        (now - v.created_at) as nat
    } else {
        0
    }
}

/// Whether a room is no longer younger than `timeout` at `now`.
pub open spec fn expired(v: RoomView, now: u64, timeout: u64) -> bool {
    room_age(v, now) >= timeout
}

/// The rooms that survive a sweep at `now`.
pub open spec fn live_rooms(g: Registry, now: u64, timeout: u64) -> Map<Seq<char>, RoomView> {
    Map::new(
        |r: Seq<char>| g.rooms.contains_key(r) && !expired(g.rooms[r], now, timeout),
        |r: Seq<char>| g.rooms[r],
    )
}

/// A peer's record once its room may have been evicted.
pub open spec fn drop_evicted(live: Map<Seq<char>, RoomView>) -> spec_fn(Option<Seq<char>>) -> Option<
    Seq<char>,
> {
    |o: Option<Seq<char>>|
        if o is Some && !live.contains_key(o->0) {
            None
        } else {
            o
        }
}

/// The registry after a sweep at `now`: every room not younger than `timeout` is
/// gone, whoever is in it, and its members record no room.
pub open spec fn sweep_spec(g: Registry, now: u64, timeout: u64) -> Registry {
    Registry {
        rooms: live_rooms(g, now, timeout),
        peers: g.peers.map_values(drop_evicted(live_rooms(g, now, timeout))),
    }
}

/// A sweep keeps the registry consistent.
pub proof fn lemma_sweep_consistent(g: Registry, now: u64, timeout: u64)
    requires
        g.consistent(),
    ensures
        sweep_spec(g, now, timeout).consistent(),
{
    let h = sweep_spec(g, now, timeout);
    assert forall|q: Seq<char>| #[trigger] h.peers.contains_key(q) && h.peers[q] is Some implies {
        let r2 = h.peers[q]->0;
        h.rooms.contains_key(r2) && h.rooms[r2].members.contains(q)
    } by {
        assert(g.peers.contains_key(q));
    }
    assert forall|r2: Seq<char>, q: Seq<char>|
        h.rooms.contains_key(r2) && #[trigger] h.rooms[r2].members.contains(q) implies {
        h.peers.contains_key(q) && h.peers[q] == Some(r2)
    } by {
        assert(g.rooms[r2].members.contains(q));
    }
}

/// A sweep keeps exactly the rooms younger than the timeout,
/// whatever their members.
pub proof fn lemma_sweep_evicts(g: Registry, now: u64, timeout: u64, r: Seq<char>)
    ensures
        sweep_spec(g, now, timeout).rooms.contains_key(r) <==> (g.rooms.contains_key(r) && !expired(
            g.rooms[r],
            now,
            timeout,
        )),
{
}

/// Evicts every room not younger than the configured timeout at time `now`.
pub fn cleanup_old_rooms(state: &mut AppState, now: u64)
    requires
        old(state).wf(),
    ensures
        final(state).wf(),
        final(state).config == old(state).config,
        final(state).model() == sweep_spec(old(state).model(), now, old(state).config.room.timeout_ms),
{
    let timeout = state.config.room.timeout_ms;
    let ghost g = state.model();
    let ghost live = live_rooms(g, now, timeout);
    let mut i: usize = 0;
    while i < state.rooms.len()
        invariant
            i <= state.rooms@.len(),
            state.config == old(state).config,
            state.peers@ == old(state).peers@,
            g == old(state).model(),
            timeout == old(state).config.room.timeout_ms,
            live == live_rooms(g, now, timeout),
            keys_unique(state.rooms@, room_key()),
            forall|a: int| 0 <= a < i ==> !expired(#[trigger] state.rooms@[a].view_of(), now, timeout),
            forall|k: Seq<char>| #[trigger] keyed(state.rooms@, room_key(), room_val()).contains_key(k) ==> g.rooms.contains_key(k)
                && keyed(state.rooms@, room_key(), room_val())[k] == g.rooms[k],
            forall|k: Seq<char>| #[trigger] live.contains_key(k) ==> keyed(state.rooms@, room_key(), room_val()).contains_key(k),
        decreases state.rooms@.len() - i,
    {
        let created = state.rooms[i].created_at;
        let age: u64 = if now >= created {
            now - created
        } else {
            0
        };
        if age >= timeout {
            let ghost rooms1 = state.rooms@;
            proof {
                lemma_keyed_index(rooms1, room_key(), room_val(), i as int);
                lemma_keyed_remove(rooms1, room_key(), room_val(), i as int);
            }
            state.rooms.remove(i);
            proof {
                assert forall|a: int| 0 <= a < i implies !expired(#[trigger] state.rooms@[a].view_of(), now, timeout) by {
                    assert(state.rooms@[a] == rooms1[a]);
                }
            }
        } else {
            i += 1;
        }
    }
    let ghost rooms_done = state.rooms@;
    proof {
        let m = keyed(rooms_done, room_key(), room_val());
        assert forall|k: Seq<char>| #[trigger] m.contains_key(k) implies live.contains_key(k) by {
            let a = choose|a: int| 0 <= a < rooms_done.len() && #[trigger] room_key()(rooms_done[a]) == k;
            lemma_keyed_index(rooms_done, room_key(), room_val(), a);
        }
        assert(m =~= live);
    }
    let ghost peers0 = state.peers@;
    let mut j: usize = 0;
    while j < state.peers.len()
        invariant
            j <= state.peers@.len(),
            state.peers@.len() == peers0.len(),
            state.rooms@ == rooms_done,
            keys_unique(rooms_done, room_key()),
            keyed(rooms_done, room_key(), room_val()) == live,
            state.config == old(state).config,
            forall|a: int| 0 <= a < peers0.len() ==> #[trigger] state.peers@[a].id@ == peers0[a].id@,
            forall|a: int| 0 <= a < j ==> #[trigger] state.peers@[a].room() == drop_evicted(live)(peers0[a].room()),
            forall|a: int| j <= a < peers0.len() ==> #[trigger] state.peers@[a] == peers0[a],
        decreases peers0.len() - j,
    {
        let evicted = match &state.peers[j].room_id {
            Some(r) => find_room(&state.rooms, r).is_none(),
            None => false,
        };
        if evicted {
            let id = state.peers[j].id.clone();
            let connected_at = state.peers[j].connected_at;
            state.peers.set(j, PeerSession { id, room_id: None, connected_at });
        } else {
            proof {
                if let Some(r) = state.peers@[j as int].room_id {
                    let i2 = choose|i2: int| 0 <= i2 < rooms_done.len() && rooms_done[i2].id@ == r@;
                    lemma_keyed_index(rooms_done, room_key(), room_val(), i2);
                }
            }
        }
        j += 1;
    }
    proof {
        lemma_keyed_pointwise(peers0, state.peers@, peer_key(), peer_val(), drop_evicted(live));
        lemma_sweep_consistent(g, now, timeout);
        assert(state.model().rooms == sweep_spec(g, now, timeout).rooms);
        assert(state.model().peers == sweep_spec(g, now, timeout).peers);
    }
}

} // verus!
