//! Registering and unregistering connections.

use crate::protocol::{sent, Delivery, MessageView, ServerMessage};
use crate::room::{
    broadcast_to, find_peer, handle_leave_room, leave_msgs, leave_spec, lemma_leave_consistent,
    lemma_remove_value_no_dup,
};
use crate::state::{
    lemma_keyed_index, lemma_keyed_push, lemma_keyed_remove, peer_key, peer_val,
    AppState, PeerSession, Registry,
};
use vstd::prelude::*;

verus! {

/// Relies on `uuid::Uuid::new_v4` and its `Display`: a random identity in
/// the 36-character hyphenated form.
#[verifier::external_body]
fn new_peer_id() -> (r: String)
    ensures
        r@.len() == 36,
{
    uuid::Uuid::new_v4().to_string()
}

/// The registry once `p` is registered with no room, if it was not yet.
pub open spec fn register_spec(g: Registry, p: Seq<char>) -> Registry {
    if g.peers.contains_key(p) {
        g
    } else {
        Registry { rooms: g.rooms, peers: g.peers.insert(p, None) }
    }
}

/// The registry once `p` has left its room and is forgotten.
pub open spec fn disconnect_spec(g: Registry, p: Seq<char>) -> Registry {
    let h = leave_spec(g, p);
    Registry { rooms: h.rooms, peers: h.peers.remove(p) }
}

/// What a departure of `p` from room `r` tells the others: one `UserLeft`
/// to each member but `p`, first and in member order, each member once.
pub open spec fn tells_each_once(g: Registry, p: Seq<char>, r: Seq<char>) -> bool {
    let rest = g.rooms[r].members.remove_value(p);
    &&& leave_msgs(g, p).take(rest.len() as int) == broadcast_to(rest, MessageView::UserLeft { socket_id: p })
    &&& rest.no_duplicates()
    &&& forall|q: Seq<char>| #[trigger] rest.contains(q) <==> (g.rooms[r].members.contains(q) && q != p)
}

/// Disconnecting keeps the registry consistent, forgets `p` and lists it in
/// no room. If `p` was in a room, that room is gone when `p` was its last
/// member, and each other member is told once that `p` left.
pub proof fn lemma_disconnect(g: Registry, p: Seq<char>)
    requires
        g.consistent(),
    ensures
        disconnect_spec(g, p).consistent(),
        !disconnect_spec(g, p).peers.contains_key(p),
        forall|r: Seq<char>|
            #[trigger] disconnect_spec(g, p).rooms.contains_key(r) ==> !disconnect_spec(g, p).rooms[r].members.contains(p),
        g.room_of(p) is Some && g.rooms[g.room_of(p)->0].members.len() == 1 ==> !disconnect_spec(g, p).rooms.contains_key(
            g.room_of(p)->0,
        ),
        g.room_of(p) is Some ==> tells_each_once(g, p, g.room_of(p)->0),
{
    lemma_leave_consistent(g, p);
    let h = leave_spec(g, p);
    let k = disconnect_spec(g, p);
    assert forall|r: Seq<char>| #[trigger] k.rooms.contains_key(r) implies !k.rooms[r].members.contains(p) by {
        if k.rooms[r].members.contains(p) {
            assert(h.rooms[r].members.contains(p));
        }
    }
    assert forall|q: Seq<char>| #[trigger] k.peers.contains_key(q) && k.peers[q] is Some implies {
        let r2 = k.peers[q]->0;
        k.rooms.contains_key(r2) && k.rooms[r2].members.contains(q)
    } by {
        assert(h.peers.contains_key(q));
    }
    assert forall|r: Seq<char>, q: Seq<char>|
        k.rooms.contains_key(r) && #[trigger] k.rooms[r].members.contains(q) implies {
        k.peers.contains_key(q) && k.peers[q] == Some(r)
    } by {
        assert(h.rooms[r].members.contains(q));
    }
    if let Some(r) = g.room_of(p) {
        let members = g.rooms[r].members;
        lemma_remove_value_no_dup(members, p);
        let rest = members.remove_value(p);
        let notice = broadcast_to(rest, MessageView::UserLeft { socket_id: p });
        assert(leave_msgs(g, p).take(rest.len() as int) =~= notice);
    }
}

/// Registers peer `peer_id`, connected at `now`. An identity already
/// registered is refused and nothing is sent; otherwise the peer gets its
/// identity back in a `Connected` message.
pub fn register_peer(state: &mut AppState, peer_id: &String, now: u64) -> (out: Vec<Delivery>)
    requires
        old(state).wf(),
    ensures
        final(state).wf(),
        final(state).config == old(state).config,
        final(state).model() == register_spec(old(state).model(), peer_id@),
        old(state).model().peers.contains_key(peer_id@) ==> out@.len() == 0,
        !old(state).model().peers.contains_key(peer_id@) ==> sent(out@) == seq![
            (peer_id@, MessageView::Connected { socket_id: peer_id@ }),
        ],
{
    let mut out: Vec<Delivery> = Vec::new();
    if let Some(j) = find_peer(&state.peers, peer_id) {
        proof {
            lemma_keyed_index(state.peers@, peer_key(), peer_val(), j as int);
        }
        return out;
    }
    let ghost g = state.model();
    let session = PeerSession { id: peer_id.clone(), room_id: None, connected_at: now };
    proof {
        lemma_keyed_push(state.peers@, peer_key(), peer_val(), session);
    }
    state.peers.push(session);
    out.push(Delivery { to: peer_id.clone(), message: ServerMessage::Connected { socket_id: peer_id.clone() } });
    proof {
        let h = state.model();
        assert(h.rooms == g.rooms);
        assert forall|q: Seq<char>| #[trigger] h.peers.contains_key(q) && h.peers[q] is Some implies {
            let r2 = h.peers[q]->0;
            h.rooms.contains_key(r2) && h.rooms[r2].members.contains(q)
        } by {
            assert(g.peers.contains_key(q));
        }
        assert forall|r: Seq<char>, q: Seq<char>|
            h.rooms.contains_key(r) && #[trigger] h.rooms[r].members.contains(q) implies {
            h.peers.contains_key(q) && h.peers[q] == Some(r)
        } by {
            assert(g.rooms[r].members.contains(q));
        }
        assert(sent(out@) =~= seq![(peer_id@, MessageView::Connected { socket_id: peer_id@ })]);
    }
    out
}

/// Opens a session for a new connection at `now` under a fresh random
/// identity, which it returns with what it sends.
pub fn handle_connection(state: &mut AppState, now: u64) -> (res: (String, Vec<Delivery>))
    requires
        old(state).wf(),
    ensures
        final(state).wf(),
        final(state).config == old(state).config,
        final(state).model() == register_spec(old(state).model(), res.0@),
        old(state).model().peers.contains_key(res.0@) ==> res.1@.len() == 0,
        !old(state).model().peers.contains_key(res.0@) ==> sent(res.1@) == seq![
            (res.0@, MessageView::Connected { socket_id: res.0@ }),
        ],
{
    let peer_id = new_peer_id();
    let out = register_peer(state, &peer_id, now);
    (peer_id, out)
}

/// Closes the session of `peer_id`: it leaves its room and is unregistered.
pub fn handle_disconnect(state: &mut AppState, peer_id: &String) -> (out: Vec<Delivery>)
    requires
        old(state).wf(),
    ensures
        final(state).wf(),
        final(state).config == old(state).config,
        final(state).model() == disconnect_spec(old(state).model(), peer_id@),
        sent(out@) == leave_msgs(old(state).model(), peer_id@),
{
    let ghost g = state.model();
    let out = handle_leave_room(state, peer_id);
    proof {
        lemma_disconnect(g, peer_id@);
    }
    if let Some(j) = find_peer(&state.peers, peer_id) {
        let ghost peers1 = state.peers@;
        proof {
            lemma_keyed_index(peers1, peer_key(), peer_val(), j as int);
            lemma_keyed_remove(peers1, peer_key(), peer_val(), j as int);
        }
        state.peers.remove(j);
    } else {
        proof {
            assert(state.model().peers.remove(peer_id@) =~= state.model().peers);
        }
    }
    out
}

/// Answers a heartbeat of `peer_id`.
pub fn handle_heartbeat(peer_id: &String) -> (d: Delivery)
    ensures
        d@ == (peer_id@, MessageView::HeartbeatAck),
{
    Delivery { to: peer_id.clone(), message: ServerMessage::HeartbeatAck }
}

} // verus!
