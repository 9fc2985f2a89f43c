//! Relaying negotiation messages between room members.

use crate::protocol::{clone_message, sent, strs, Delivery, MessageView, ServerMessage};
use crate::room::{broadcast_to, find_peer, find_room};
use crate::state::{lemma_keyed_index, peer_key, peer_val, room_key, room_val, AppState, Registry};
use vstd::prelude::*;

verus! {

/// Every member but `from`.
pub open spec fn others(members: Seq<Seq<char>>, from: Seq<char>) -> Seq<Seq<char>> {
    members.filter(|x: Seq<char>| x != from)
}

/// What relaying `m` from `from` sends: to `target` alone if it is given and
/// registered; without a target, to every other member of `room`.
pub open spec fn relay_msgs(
    g: Registry,
    from: Seq<char>,
    room: Seq<char>,
    target: Option<Seq<char>>,
    m: MessageView,
) -> Seq<(Seq<char>, MessageView)> {
    match target {
        Some(t) => if g.peers.contains_key(t) {
            seq![(t, m)]
        } else {
            seq![]
        },
        None => if g.rooms.contains_key(room) {
            broadcast_to(others(g.rooms[room].members, from), m)
        } else {
            seq![]
        },
    }
}

proof fn lemma_others(s: Seq<Seq<char>>, from: Seq<char>)
    requires
        s.no_duplicates(),
    ensures
        others(s, from).no_duplicates(),
        forall|q: Seq<char>| #[trigger] others(s, from).contains(q) <==> (s.contains(q) && q != from),
    decreases s.len(),
{
    reveal(Seq::filter);
    if s.len() > 0 {
        let t = s.drop_last();
        let x = s.last();
        assert forall|i: int, j: int| 0 <= i < t.len() && 0 <= j < t.len() && i != j implies t[i] != t[j] by {
            assert(t[i] == s[i] && t[j] == s[j]);
        }
        lemma_others(t, from);
        let o = others(t, from);
        assert(!t.contains(x)) by {
            if t.contains(x) {
                let i = choose|i: int| 0 <= i < t.len() && t[i] == x;
                assert(s[i] == s[s.len() - 1]);
            }
        }
        assert forall|q: Seq<char>| s.contains(q) <==> (t.contains(q) || q == x) by {
            if s.contains(q) {
                let i = choose|i: int| 0 <= i < s.len() && s[i] == q;
                if i < s.len() - 1 {
                    assert(t[i] == q);
                }
            }
            if t.contains(q) {
                let i = choose|i: int| 0 <= i < t.len() && t[i] == q;
                assert(s[i] == q);
            }
            if q == x {
                assert(s[s.len() - 1] == q);
            }
        }
        if x != from {
            let o2 = o.push(x);
            assert(others(s, from) == o2);
            assert forall|q: Seq<char>| #[trigger] o2.contains(q) <==> (o.contains(q) || q == x) by {
                if o2.contains(q) {
                    let i = choose|i: int| 0 <= i < o2.len() && o2[i] == q;
                    if i < o.len() {
                        assert(o[i] == q);
                    }
                }
                if o.contains(q) {
                    let i = choose|i: int| 0 <= i < o.len() && o[i] == q;
                    assert(o2[i] == q);
                }
                if q == x {
                    assert(o2[o.len() as int] == q);
                }
            }
            assert forall|i: int, j: int| 0 <= i < o2.len() && 0 <= j < o2.len() && i != j implies o2[i] != o2[j] by {
                if i < o.len() && j < o.len() {
                } else if i == o.len() {
                    assert(o.contains(o2[j]));
                } else {
                    assert(o.contains(o2[i]));
                }
            }
        } else {
            assert(others(s, from) == o);
        }
    }
}

/// Relay reaches the right peers. With a target, only that target receives
/// the message, and only if it is registered. Without one, every member of
/// the room other than the sender receives it exactly once, and nobody else.
pub proof fn lemma_relay_reach(
    g: Registry,
    from: Seq<char>,
    room: Seq<char>,
    target: Option<Seq<char>>,
    m: MessageView,
)
    requires
        g.consistent(),
    ensures
        target is Some && g.peers.contains_key(target->0) ==> relay_msgs(g, from, room, target, m)
            == seq![(target->0, m)],
        target is Some && !g.peers.contains_key(target->0) ==> relay_msgs(g, from, room, target, m)
            == Seq::<(Seq<char>, MessageView)>::empty(),
        target is None && g.rooms.contains_key(room) ==> {
            let out = relay_msgs(g, from, room, target, m);
            let to = others(g.rooms[room].members, from);
            &&& out == broadcast_to(to, m)
            &&& to.no_duplicates()
            &&& forall|q: Seq<char>| #[trigger] to.contains(q) <==> (g.rooms[room].members.contains(q) && q != from)
        },
{
    if target is None && g.rooms.contains_key(room) {
        lemma_others(g.rooms[room].members, from);
    }
}

/// Sends `msg` to each of `to` but `except`, in order.
fn broadcast_except(out: &mut Vec<Delivery>, to: &Vec<String>, except: &String, msg: &ServerMessage)
    ensures
        sent(final(out)@) == sent(old(out)@) + broadcast_to(others(strs(to@), except@), msg@),
{
    let ghost o = sent(out@);
    let ghost all = strs(to@);
    let mut i: usize = 0;
    proof {
        reveal(Seq::filter);
        assert(all.take(0) =~= seq![]);
        assert(sent(out@) =~= o + broadcast_to(others(all.take(0), except@), msg@));
    }
    while i < to.len()
        invariant
            i <= to@.len(),
            all == strs(to@),
            sent(out@) == o + broadcast_to(others(all.take(i as int), except@), msg@),
        decreases to.len() - i,
    {
        let ghost before = sent(out@);
        proof {
            reveal(Seq::filter);
            assert(all.take(i as int + 1).drop_last() =~= all.take(i as int));
            assert(all.take(i as int + 1).last() == to@[i as int]@);
        }
        if !(to[i] == *except) {
            out.push(Delivery { to: to[i].clone(), message: clone_message(msg) });
            proof {
                let f = others(all.take(i as int), except@);
                assert(others(all.take(i as int + 1), except@) == f.push(to@[i as int]@));
                assert(broadcast_to(f.push(to@[i as int]@), msg@) =~= broadcast_to(f, msg@).push((to@[i as int]@, msg@)));
                assert(sent(out@) =~= before.push((to@[i as int]@, msg@)));
            }
        }
        i += 1;
    }
    proof {
        assert(all.take(to@.len() as int) =~= all);
    }
}

/// The identity a target names, if any.
pub open spec fn target_view(target: Option<&String>) -> Option<Seq<char>> {
    match target {
        Some(t) => Some(t@),
        None => None,
    }
}

/// Delivers `msg` from `from` to `target` if given, else to the rest of room `room_id`.
pub fn relay(
    state: &AppState,
    from: &String,
    room_id: &String,
    target: Option<&String>,
    msg: ServerMessage,
) -> (out: Vec<Delivery>)
    requires
        state.wf(),
    ensures
        sent(out@) == relay_msgs(
            state.model(),
            from@,
            room_id@,
            target_view(target),
            msg@,
        ),
{
    let mut out: Vec<Delivery> = Vec::new();
    let ghost tv = match target {
        Some(t) => Some(t@),
        None => None,
    };
    match target {
        Some(t) => {
            if let Some(j) = find_peer(&state.peers, t) {
                proof {
                    lemma_keyed_index(state.peers@, peer_key(), peer_val(), j as int);
                }
                out.push(Delivery { to: t.clone(), message: msg });
                proof {
                    assert(sent(out@) =~= seq![(t@, msg@)]);
                    assert(sent(out@) == relay_msgs(state.model(), from@, room_id@, tv, msg@));
                }
            } else {
                assert(sent(out@) =~= relay_msgs(state.model(), from@, room_id@, tv, msg@));
            }
        },
        None => {
            if let Some(i) = find_room(&state.rooms, room_id) {
                proof {
                    lemma_keyed_index(state.rooms@, room_key(), room_val(), i as int);
                }
                broadcast_except(&mut out, &state.rooms[i].users, from, &msg);
                proof {
                    assert(sent(out@) =~= broadcast_to(others(strs(state.rooms@[i as int].users@), from@), msg@));
                    assert(sent(out@) == relay_msgs(state.model(), from@, room_id@, tv, msg@));
                }
            } else {
                assert(sent(out@) =~= relay_msgs(state.model(), from@, room_id@, tv, msg@));
            }
        },
    }
    out
}

/// Relays a session offer from `from_peer_id`.
pub fn handle_offer(
    state: &AppState,
    from_peer_id: &String,
    room_id: &String,
    sdp: &String,
    target: Option<&String>,
) -> (out: Vec<Delivery>)
    requires
        state.wf(),
    ensures
        sent(out@) == relay_msgs(
            state.model(),
            from_peer_id@,
            room_id@,
            target_view(target),
            MessageView::Offer { from: from_peer_id@, sdp: sdp@ },
        ),
{
    let message = ServerMessage::Offer { from: from_peer_id.clone(), sdp: sdp.clone() };
    relay(state, from_peer_id, room_id, target, message)
}

/// Relays a session answer from `from_peer_id`.
pub fn handle_answer(
    state: &AppState,
    from_peer_id: &String,
    room_id: &String,
    sdp: &String,
    target: Option<&String>,
) -> (out: Vec<Delivery>)
    requires
        state.wf(),
    ensures
        sent(out@) == relay_msgs(
            state.model(),
            from_peer_id@,
            room_id@,
            target_view(target),
            MessageView::Answer { from: from_peer_id@, sdp: sdp@ },
        ),
{
    let message = ServerMessage::Answer { from: from_peer_id.clone(), sdp: sdp.clone() };
    relay(state, from_peer_id, room_id, target, message)
}

/// Relays a network path candidate from `from_peer_id`.
pub fn handle_ice_candidate(
    state: &AppState,
    from_peer_id: &String,
    room_id: &String,
    candidate: &String,
    target: Option<&String>,
) -> (out: Vec<Delivery>)
    requires
        state.wf(),
    ensures
        sent(out@) == relay_msgs(
            state.model(),
            from_peer_id@,
            room_id@,
            target_view(target),
            MessageView::IceCandidate { from: from_peer_id@, candidate: candidate@ },
        ),
{
    let message = ServerMessage::IceCandidate { from: from_peer_id.clone(), candidate: candidate.clone() };
    relay(state, from_peer_id, room_id, target, message)
}

/// Relays a transfer manifest from `from_peer_id`.
pub fn handle_manifest(
    state: &AppState,
    from_peer_id: &String,
    room_id: &String,
    manifest: &String,
    target: Option<&String>,
) -> (out: Vec<Delivery>)
    requires
        state.wf(),
    ensures
        sent(out@) == relay_msgs(
            state.model(),
            from_peer_id@,
            room_id@,
            target_view(target),
            MessageView::Manifest { from: from_peer_id@, manifest: manifest@ },
        ),
{
    let message = ServerMessage::Manifest { from: from_peer_id.clone(), manifest: manifest.clone() };
    relay(state, from_peer_id, room_id, target, message)
}

/// Relays the signal that a receiver is ready, from `from_peer_id`.
pub fn handle_transfer_ready(
    state: &AppState,
    from_peer_id: &String,
    room_id: &String,
    target: Option<&String>,
) -> (out: Vec<Delivery>)
    requires
        state.wf(),
    ensures
        sent(out@) == relay_msgs(
            state.model(),
            from_peer_id@,
            room_id@,
            target_view(target),
            MessageView::TransferReady { from: from_peer_id@ },
        ),
{
    let message = ServerMessage::TransferReady { from: from_peer_id.clone() };
    relay(state, from_peer_id, room_id, target, message)
}

/// Relays the signal that a transfer has completed, from `from_peer_id`.
pub fn handle_transfer_complete(
    state: &AppState,
    from_peer_id: &String,
    room_id: &String,
    target: Option<&String>,
) -> (out: Vec<Delivery>)
    requires
        state.wf(),
    ensures
        sent(out@) == relay_msgs(
            state.model(),
            from_peer_id@,
            room_id@,
            target_view(target),
            MessageView::TransferComplete { from: from_peer_id@ },
        ),
{
    let message = ServerMessage::TransferComplete { from: from_peer_id.clone() };
    relay(state, from_peer_id, room_id, target, message)
}

} // verus!
