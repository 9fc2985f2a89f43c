//! Acting on one message from a client.

use crate::connection::handle_heartbeat;
use crate::protocol::{opt_str, sent, ClientMessage, Delivery, MessageView, ServerMessage};
use crate::room::{handle_join_room, handle_leave_room, join_msgs, join_spec, leave_msgs, leave_spec};
use crate::signaling::{
    handle_answer, handle_ice_candidate, handle_manifest, handle_offer, handle_transfer_complete,
    handle_transfer_ready, relay_msgs,
};
use crate::state::{AppState, Registry};
use crate::text::trim_of;
use crate::config::TurnConfig;
use crate::turn::{credential_valid, handle_turn_config_request, turn_request_reply, validate_credentials};
use vstd::prelude::*;
use vstd::string::StringExecFns;

verus! {

/// The reply to a refresh whose user name is still valid.
pub open spec fn still_valid() -> MessageView {
    MessageView::TurnConfig { success: true, has_data: false, error: Some("Credentials still valid"@) }
}

/// Whether `out` is one reply to `p`, as a request for relay settings from
/// room `room` gets it.
pub open spec fn turn_reply(out: Seq<Delivery>, p: Seq<char>, c: TurnConfig, room: Seq<char>) -> bool {
    out.len() == 1 && out[0].to@ == p && turn_request_reply(out[0].message, c, room)
}

/// Whether `out` is one reply to `p` for a refresh with user name `user`:
/// the still-valid reply, which needs a user name valid at some time, or
/// what a request for relay settings from room `room` gets.
pub open spec fn refresh_reply(
    out: Seq<Delivery>,
    p: Seq<char>,
    c: TurnConfig,
    room: Seq<char>,
    user: Seq<char>,
) -> bool {
    ||| (out.len() == 1 && out[0]@ == (p, still_valid()) && (exists|t: u64| #[trigger] credential_valid(user, t)))
    ||| turn_reply(out, p, c, room)
}

/// What handling `msg` from peer `p` at `now` (milliseconds) does: `g` is
/// the registry before, `h` after, `sends` what is sent, with relay settings
/// `c`. Relay settings depend on the clock and on chance; their replies are
/// fixed as far as those allow.
pub open spec fn dispatched(
    g: Registry,
    h: Registry,
    c: TurnConfig,
    sends: Seq<Delivery>,
    p: Seq<char>,
    msg: ClientMessage,
    max: nat,
    now: u64,
) -> bool {
    let out = sent(sends);
    match msg {
        ClientMessage::Heartbeat => h == g && out == seq![(p, MessageView::HeartbeatAck)],
        ClientMessage::JoinRoom { room_id } => {
            &&& h == join_spec(g, p, trim_of(room_id@), max, now)
            &&& out == join_msgs(g, p, trim_of(room_id@), max)
        },
        ClientMessage::LeaveRoom => h == leave_spec(g, p) && out == leave_msgs(g, p),
        ClientMessage::Offer { room_id, sdp, target } => h == g && out == relay_msgs(
            g,
            p,
            room_id@,
            opt_str(target),
            MessageView::Offer { from: p, sdp: sdp@ },
        ),
        ClientMessage::Answer { room_id, sdp, target } => h == g && out == relay_msgs(
            g,
            p,
            room_id@,
            opt_str(target),
            MessageView::Answer { from: p, sdp: sdp@ },
        ),
        ClientMessage::IceCandidate { room_id, candidate, target } => h == g && out == relay_msgs(
            g,
            p,
            room_id@,
            opt_str(target),
            MessageView::IceCandidate { from: p, candidate: candidate@ },
        ),
        ClientMessage::Manifest { room_id, manifest, target } => h == g && out == relay_msgs(
            g,
            p,
            room_id@,
            opt_str(target),
            MessageView::Manifest { from: p, manifest: manifest@ },
        ),
        ClientMessage::TransferReady { room_id, target } => h == g && out == relay_msgs(
            g,
            p,
            room_id@,
            opt_str(target),
            MessageView::TransferReady { from: p },
        ),
        ClientMessage::TransferComplete { room_id, target } => h == g && out == relay_msgs(
            g,
            p,
            room_id@,
            opt_str(target),
            MessageView::TransferComplete { from: p },
        ),
        ClientMessage::RequestTurnConfig { room_id, .. } => h == g && turn_reply(sends, p, c, room_id@),
        ClientMessage::RefreshTurnCredentials { room_id, current_username } => h == g && refresh_reply(
            sends,
            p,
            c,
            room_id@,
            current_username@,
        ),
        ClientMessage::CheckTurnServerStatus => h == g && out == seq![
            (p, MessageView::TurnServerStatusUpdate { room_id: seq![], timestamp: now / 1000 }),
        ],
    }
}

fn borrow_target(t: &Option<String>) -> (r: Option<&String>)
    ensures
        opt_str(*t) == match r {
            Some(s) => Some(s@),
            None => None,
        },
{
    match t {
        Some(s) => Some(s),
        None => None,
    }
}

fn single(d: Delivery) -> (r: Vec<Delivery>)
    ensures
        r@ == seq![d],
        sent(r@) == seq![d@],
{
    let mut v: Vec<Delivery> = Vec::new();
    v.push(d);
    proof {
        assert(v@ =~= seq![d]);
        assert(sent(v@) =~= seq![d@]);
    }
    v
}

/// Acts on `msg` from peer `peer_id` at time `now` (milliseconds) and
/// returns what is to be sent.
pub fn handle_client_message(state: &mut AppState, peer_id: &String, msg: ClientMessage, now: u64) -> (out: Vec<Delivery>)
    requires
        old(state).wf(),
    ensures
        final(state).wf(),
        final(state).config == old(state).config,
        dispatched(
            old(state).model(),
            final(state).model(),
            old(state).config.turn,
            out@,
            peer_id@,
            msg,
            old(state).config.room.max_size as nat,
            now,
        ),
{
    match msg {
        ClientMessage::Heartbeat => single(handle_heartbeat(peer_id)),
        ClientMessage::JoinRoom { room_id } => handle_join_room(state, peer_id, room_id.as_str(), now),
        ClientMessage::LeaveRoom => handle_leave_room(state, peer_id),
        ClientMessage::Offer { room_id, sdp, target } => handle_offer(state, peer_id, &room_id, &sdp, borrow_target(&target)),
        ClientMessage::Answer { room_id, sdp, target } => handle_answer(state, peer_id, &room_id, &sdp, borrow_target(&target)),
        ClientMessage::IceCandidate { room_id, candidate, target } => handle_ice_candidate(
            state,
            peer_id,
            &room_id,
            &candidate,
            borrow_target(&target),
        ),
        ClientMessage::Manifest { room_id, manifest, target } => handle_manifest(
            state,
            peer_id,
            &room_id,
            &manifest,
            borrow_target(&target),
        ),
        ClientMessage::TransferReady { room_id, target } => handle_transfer_ready(state, peer_id, &room_id, borrow_target(&target)),
        ClientMessage::TransferComplete { room_id, target } => handle_transfer_complete(
            state,
            peer_id,
            &room_id,
            borrow_target(&target),
        ),
        ClientMessage::RequestTurnConfig { room_id, .. } => {
            let reply = handle_turn_config_request(state, &room_id);
            single(Delivery { to: peer_id.clone(), message: reply })
        },
        ClientMessage::RefreshTurnCredentials { room_id, current_username } => {
            if validate_credentials(current_username.as_str()) {
                let reply = ServerMessage::TurnConfig {
                    success: true,
                    data: None,
                    error: Some(<String as StringExecFns>::from_str("Credentials still valid")),
                };
                single(Delivery { to: peer_id.clone(), message: reply })
            } else {
                let reply = handle_turn_config_request(state, &room_id);
                single(Delivery { to: peer_id.clone(), message: reply })
            }
        },
        ClientMessage::CheckTurnServerStatus => {
            let status = ServerMessage::TurnServerStatusUpdate { room_id: String::new(), timestamp: now / 1000 };
            single(Delivery { to: peer_id.clone(), message: status })
        },
    }
}

} // verus!
