use ponswarp_signaling::config::{Config, RoomConfig, TurnConfig, TurnPorts};
use ponswarp_signaling::connection::{handle_heartbeat, register_peer};
use ponswarp_signaling::dispatch::handle_client_message;
use ponswarp_signaling::protocol::{ClientMessage, Delivery, ServerMessage};
use ponswarp_signaling::room::handle_join_room;
use ponswarp_signaling::signaling::{
    handle_answer, handle_ice_candidate, handle_manifest, handle_offer, handle_transfer_complete,
    handle_transfer_ready,
};
use ponswarp_signaling::state::AppState;

fn s(x: &str) -> String {
    x.to_string()
}

fn room_of_three() -> AppState {
    let mut st = AppState::new(Config {
        port: 5502,
        host: s("0.0.0.0"),
        cors_origins: vec![],
        room: RoomConfig { max_size: 4, timeout_ms: 3_600_000 },
        turn: TurnConfig {
            url: String::new(),
            secret: String::new(),
            realm: String::new(),
            enable_tls: false,
            enable_udp: true,
            enable_tcp: true,
            ports: TurnPorts { udp: 3478, tcp: 3478, tls: 443 },
            credential_ttl: 3600,
            fallback_servers: vec![],
        },
        log_level: s("info"),
    });
    for p in ["A", "B", "C", "D"] {
        register_peer(&mut st, &s(p), 0);
    }
    for p in ["A", "B", "C"] {
        handle_join_room(&mut st, &s(p), "X", 0);
    }
    st
}

fn offer(to: &str) -> Delivery {
    Delivery { to: s(to), message: ServerMessage::Offer { from: s("A"), sdp: s("v=0") } }
}

#[test]
fn broadcast_offer_reaches_others_once() {
    let st = room_of_three();
    let out = handle_offer(&st, &s("A"), &s("X"), &s("v=0"), None);
    assert_eq!(out, vec![offer("B"), offer("C")]);
}

#[test]
fn targeted_offer_reaches_only_target() {
    let st = room_of_three();
    let out = handle_offer(&st, &s("A"), &s("X"), &s("v=0"), Some(&s("B")));
    assert_eq!(out, vec![offer("B")]);
}

#[test]
fn target_that_is_gone_is_dropped() {
    let st = room_of_three();
    let out = handle_offer(&st, &s("A"), &s("X"), &s("v=0"), Some(&s("Z")));
    assert!(out.is_empty());
}

#[test]
fn broadcast_to_missing_room_sends_nothing() {
    let st = room_of_three();
    let out = handle_answer(&st, &s("A"), &s("nowhere"), &s("v=0"), None);
    assert!(out.is_empty());
}

#[test]
fn answer_and_candidate_carry_payload() {
    let st = room_of_three();
    let out = handle_answer(&st, &s("B"), &s("X"), &s("ans"), Some(&s("A")));
    assert_eq!(out, vec![Delivery { to: s("A"), message: ServerMessage::Answer { from: s("B"), sdp: s("ans") } }]);
    let out = handle_ice_candidate(&st, &s("C"), &s("X"), &s("cand"), None);
    assert_eq!(
        out,
        vec![
            Delivery { to: s("A"), message: ServerMessage::IceCandidate { from: s("C"), candidate: s("cand") } },
            Delivery { to: s("B"), message: ServerMessage::IceCandidate { from: s("C"), candidate: s("cand") } },
        ]
    );
}

#[test]
fn transfer_signals_are_relayed() {
    let st = room_of_three();
    let out = handle_manifest(&st, &s("A"), &s("X"), &s("{}"), Some(&s("C")));
    assert_eq!(out, vec![Delivery { to: s("C"), message: ServerMessage::Manifest { from: s("A"), manifest: s("{}") } }]);
    let out = handle_transfer_ready(&st, &s("B"), &s("X"), None);
    assert_eq!(out.len(), 2);
    assert!(out.iter().all(|d| d.to != "B" && d.message == ServerMessage::TransferReady { from: s("B") }));
    let out = handle_transfer_complete(&st, &s("B"), &s("X"), Some(&s("D")));
    assert_eq!(out, vec![Delivery { to: s("D"), message: ServerMessage::TransferComplete { from: s("B") } }]);
}

#[test]
fn dispatch_relays_offer() {
    let mut st = room_of_three();
    let out = handle_client_message(
        &mut st,
        &s("A"),
        ClientMessage::Offer { room_id: s("X"), sdp: s("v=0"), target: None },
        0,
    );
    assert_eq!(out, vec![offer("B"), offer("C")]);
}

#[test]
fn heartbeat_is_acknowledged() {
    assert_eq!(handle_heartbeat(&s("A")), Delivery { to: s("A"), message: ServerMessage::HeartbeatAck });
}
