use ponswarp_signaling::config::{Config, RoomConfig, TurnConfig, TurnPorts};
use ponswarp_signaling::connection::{handle_connection, handle_disconnect, register_peer};
use ponswarp_signaling::dispatch::handle_client_message;
use ponswarp_signaling::protocol::{ClientMessage, Delivery, ServerMessage};
use ponswarp_signaling::room::{cleanup_old_rooms, handle_join_room, handle_leave_room, leave_room_internal};
use ponswarp_signaling::state::{AppState, Room};

fn config(max_size: usize, timeout_ms: u64) -> Config {
    Config {
        port: 5502,
        host: "0.0.0.0".to_string(),
        cors_origins: vec!["http://localhost:3500".to_string()],
        room: RoomConfig { max_size, timeout_ms },
        turn: TurnConfig {
            url: String::new(),
            secret: String::new(),
            realm: String::new(),
            enable_tls: false,
            enable_udp: true,
            enable_tcp: true,
            ports: TurnPorts { udp: 3478, tcp: 3478, tls: 443 },
            credential_ttl: 3600,
            fallback_servers: vec![],
        },
        log_level: "info".to_string(),
    }
}

fn s(x: &str) -> String {
    x.to_string()
}

fn state_with(max_size: usize, timeout_ms: u64, peers: &[&str]) -> AppState {
    let mut st = AppState::new(config(max_size, timeout_ms));
    for p in peers {
        let out = register_peer(&mut st, &s(p), 0);
        assert_eq!(out.len(), 1);
    }
    st
}

fn to(p: &str, message: ServerMessage) -> Delivery {
    Delivery { to: s(p), message }
}

fn users(v: &[&str]) -> Vec<String> {
    v.iter().map(|x| x.to_string()).collect()
}

fn room<'a>(st: &'a AppState, id: &str) -> Option<&'a Room> {
    st.rooms.iter().find(|r| r.id == id)
}

fn recorded(st: &AppState, p: &str) -> Option<String> {
    st.peers.iter().find(|x| x.id == p).and_then(|x| x.room_id.clone())
}

fn check_consistent(st: &AppState) {
    for peer in &st.peers {
        if let Some(r) = &peer.room_id {
            assert!(room(st, r).unwrap().users.contains(&peer.id));
        }
    }
    for r in &st.rooms {
        for u in &r.users {
            assert_eq!(recorded(st, u), Some(r.id.clone()));
        }
    }
}

#[test]
fn first_and_second_join_messages() {
    let mut st = state_with(4, 1000, &["ann", "ben"]);
    let out = handle_join_room(&mut st, &s("ann"), "alpha", 10);
    assert_eq!(
        out,
        vec![
            to("ann", ServerMessage::RoomUsers { users: vec![] }),
            to("ann", ServerMessage::JoinedRoom { room_id: s("alpha"), socket_id: s("ann"), user_count: 1 }),
            to("ann", ServerMessage::RoomUsers { users: users(&["ann"]) }),
        ]
    );
    let out = handle_join_room(&mut st, &s("ben"), "alpha", 20);
    assert_eq!(
        out,
        vec![
            to("ben", ServerMessage::RoomUsers { users: users(&["ann"]) }),
            to("ben", ServerMessage::JoinedRoom { room_id: s("alpha"), socket_id: s("ben"), user_count: 2 }),
            to("ann", ServerMessage::PeerJoined { socket_id: s("ben"), room_id: s("alpha") }),
            to("ann", ServerMessage::RoomUsers { users: users(&["ann", "ben"]) }),
            to("ben", ServerMessage::RoomUsers { users: users(&["ann", "ben"]) }),
        ]
    );
    check_consistent(&st);
}

#[test]
fn join_trims_room_name() {
    let mut st = state_with(4, 1000, &["ann"]);
    handle_join_room(&mut st, &s("ann"), "  alpha\t", 0);
    assert!(room(&st, "alpha").is_some());
    assert_eq!(recorded(&st, "ann"), Some(s("alpha")));
}

#[test]
fn unknown_peer_join_is_ignored() {
    let mut st = state_with(4, 1000, &[]);
    let out = handle_join_room(&mut st, &s("ghost"), "alpha", 0);
    assert!(out.is_empty());
    assert!(st.rooms.is_empty());
}

#[test]
fn full_room_rejects_new_identity() {
    let mut st = state_with(2, 1000, &["ann", "ben", "cid"]);
    handle_join_room(&mut st, &s("ann"), "x", 0);
    handle_join_room(&mut st, &s("ben"), "x", 0);
    let out = handle_join_room(&mut st, &s("cid"), "x", 0);
    assert_eq!(out, vec![to("cid", ServerMessage::RoomFull { room_id: s("x") })]);
    assert_eq!(room(&st, "x").unwrap().users, users(&["ann", "ben"]));
    assert_eq!(recorded(&st, "cid"), None);
    check_consistent(&st);
}

#[test]
fn full_room_admits_member_again() {
    let mut st = state_with(2, 1000, &["ann", "ben"]);
    handle_join_room(&mut st, &s("ann"), "x", 0);
    handle_join_room(&mut st, &s("ben"), "x", 0);
    let out = handle_join_room(&mut st, &s("ann"), "x", 5);
    assert_eq!(room(&st, "x").unwrap().users.len(), 2);
    assert_eq!(
        out[1],
        to("ann", ServerMessage::JoinedRoom { room_id: s("x"), socket_id: s("ann"), user_count: 2 })
    );
    assert_eq!(out[0], to("ann", ServerMessage::RoomUsers { users: users(&["ben"]) }));
    check_consistent(&st);
}

#[test]
fn zero_capacity_rejects_everyone() {
    let mut st = state_with(0, 1000, &["ann"]);
    let out = handle_join_room(&mut st, &s("ann"), "x", 0);
    assert_eq!(out, vec![to("ann", ServerMessage::RoomFull { room_id: s("x") })]);
    assert!(st.rooms.is_empty());
    assert_eq!(recorded(&st, "ann"), None);
}

#[test]
fn switching_rooms_leaves_the_old_one() {
    let mut st = state_with(4, 1000, &["ann", "ben"]);
    handle_join_room(&mut st, &s("ann"), "a", 0);
    handle_join_room(&mut st, &s("ben"), "a", 0);
    let out = handle_join_room(&mut st, &s("ann"), "b", 0);
    assert_eq!(out[0], to("ben", ServerMessage::UserLeft { socket_id: s("ann") }));
    assert_eq!(out[1], to("ben", ServerMessage::RoomUsers { users: users(&["ben"]) }));
    assert_eq!(room(&st, "a").unwrap().users, users(&["ben"]));
    assert_eq!(room(&st, "b").unwrap().users, users(&["ann"]));
    check_consistent(&st);
}

#[test]
fn leave_notifies_remaining_members() {
    let mut st = state_with(4, 1000, &["ann", "ben", "cid"]);
    for p in ["ann", "ben", "cid"] {
        handle_join_room(&mut st, &s(p), "x", 0);
    }
    let out = handle_leave_room(&mut st, &s("ben"));
    assert_eq!(
        out,
        vec![
            to("ann", ServerMessage::UserLeft { socket_id: s("ben") }),
            to("cid", ServerMessage::UserLeft { socket_id: s("ben") }),
            to("ann", ServerMessage::RoomUsers { users: users(&["ann", "cid"]) }),
            to("cid", ServerMessage::RoomUsers { users: users(&["ann", "cid"]) }),
        ]
    );
    assert_eq!(recorded(&st, "ben"), None);
    check_consistent(&st);
}

#[test]
fn leave_without_room_is_noop() {
    let mut st = state_with(4, 1000, &["ann", "ben"]);
    handle_join_room(&mut st, &s("ben"), "x", 0);
    let out = handle_leave_room(&mut st, &s("ann"));
    assert!(out.is_empty());
    assert_eq!(room(&st, "x").unwrap().users, users(&["ben"]));
    handle_leave_room(&mut st, &s("ben"));
    let out = handle_leave_room(&mut st, &s("ben"));
    assert!(out.is_empty());
    let out = handle_leave_room(&mut st, &s("nobody"));
    assert!(out.is_empty());
    check_consistent(&st);
}

#[test]
fn leave_room_internal_checks_recorded_room() {
    let mut st = state_with(4, 1000, &["ann", "ben"]);
    handle_join_room(&mut st, &s("ann"), "x", 0);
    handle_join_room(&mut st, &s("ben"), "x", 0);
    let out = leave_room_internal(&mut st, &s("ann"), &s("y"));
    assert!(out.is_empty());
    assert_eq!(room(&st, "x").unwrap().users.len(), 2);
    let out = leave_room_internal(&mut st, &s("ann"), &s("x"));
    assert_eq!(out.len(), 2);
    assert_eq!(recorded(&st, "ann"), None);
}

#[test]
fn last_leave_removes_room_and_rejoin_recreates_it() {
    let mut st = state_with(4, 1000, &["ann"]);
    handle_join_room(&mut st, &s("ann"), "x", 100);
    assert_eq!(room(&st, "x").unwrap().created_at, 100);
    let out = handle_leave_room(&mut st, &s("ann"));
    assert!(out.is_empty());
    assert!(room(&st, "x").is_none());
    handle_join_room(&mut st, &s("ann"), "x", 900);
    assert_eq!(room(&st, "x").unwrap().created_at, 900);
    assert_eq!(room(&st, "x").unwrap().users, users(&["ann"]));
}

#[test]
fn sweep_evicts_old_room_with_members() {
    let mut st = state_with(4, 1000, &["ann", "ben"]);
    handle_join_room(&mut st, &s("ann"), "old", 0);
    handle_join_room(&mut st, &s("ben"), "new", 1500);
    cleanup_old_rooms(&mut st, 2000);
    assert!(room(&st, "old").is_none());
    assert!(room(&st, "new").is_some());
    assert_eq!(recorded(&st, "ann"), None);
    assert_eq!(recorded(&st, "ben"), Some(s("new")));
    check_consistent(&st);
}

#[test]
fn sweep_evicts_room_at_exact_timeout() {
    let mut st = state_with(4, 1000, &["ann"]);
    handle_join_room(&mut st, &s("ann"), "r", 1000);
    cleanup_old_rooms(&mut st, 1999);
    assert!(room(&st, "r").is_some());
    cleanup_old_rooms(&mut st, 2000);
    assert!(room(&st, "r").is_none());
    assert_eq!(recorded(&st, "ann"), None);
}

#[test]
fn sweep_keeps_room_created_after_clock_reading() {
    let mut st = state_with(4, 1000, &["ann"]);
    handle_join_room(&mut st, &s("ann"), "r", 5000);
    cleanup_old_rooms(&mut st, 10);
    assert!(room(&st, "r").is_some());
}

#[test]
fn register_twice_is_refused() {
    let mut st = state_with(4, 1000, &["ann"]);
    let out = register_peer(&mut st, &s("ann"), 5);
    assert!(out.is_empty());
    assert_eq!(st.peers.len(), 1);
}

#[test]
fn connection_gets_fresh_identity() {
    let mut st = state_with(4, 1000, &[]);
    let (id, out) = handle_connection(&mut st, 7);
    assert_eq!(id.len(), 36);
    assert_eq!(out, vec![to(&id, ServerMessage::Connected { socket_id: id.clone() })]);
    let (id2, _) = handle_connection(&mut st, 8);
    assert_ne!(id, id2);
    assert_eq!(st.peers.len(), 2);
}

#[test]
fn disconnect_leaves_and_unregisters() {
    let mut st = state_with(4, 1000, &["ann", "ben"]);
    handle_join_room(&mut st, &s("ann"), "x", 0);
    handle_join_room(&mut st, &s("ben"), "x", 0);
    let out = handle_disconnect(&mut st, &s("ann"));
    assert_eq!(out[0], to("ben", ServerMessage::UserLeft { socket_id: s("ann") }));
    assert!(st.peers.iter().all(|p| p.id != "ann"));
    assert_eq!(room(&st, "x").unwrap().users, users(&["ben"]));
    check_consistent(&st);
}

#[test]
fn dispatch_heartbeat_and_status() {
    let mut st = state_with(4, 1000, &["ann"]);
    let out = handle_client_message(&mut st, &s("ann"), ClientMessage::Heartbeat, 0);
    assert_eq!(out, vec![to("ann", ServerMessage::HeartbeatAck)]);
    let out = handle_client_message(&mut st, &s("ann"), ClientMessage::CheckTurnServerStatus, 12_345);
    assert_eq!(out, vec![to("ann", ServerMessage::TurnServerStatusUpdate { room_id: String::new(), timestamp: 12 })]);
}

#[test]
fn dispatch_join_and_leave() {
    let mut st = state_with(4, 1000, &["ann"]);
    let out = handle_client_message(&mut st, &s("ann"), ClientMessage::JoinRoom { room_id: s("alpha") }, 0);
    assert_eq!(out.len(), 3);
    assert_eq!(recorded(&st, "ann"), Some(s("alpha")));
    let out = handle_client_message(&mut st, &s("ann"), ClientMessage::LeaveRoom, 0);
    assert!(out.is_empty());
    assert!(st.rooms.is_empty());
}

#[test]
fn dispatch_turn_request_unconfigured() {
    let mut st = state_with(4, 1000, &["ann"]);
    let out = handle_client_message(
        &mut st,
        &s("ann"),
        ClientMessage::RequestTurnConfig { room_id: s("x"), force_refresh: None },
        0,
    );
    assert_eq!(
        out,
        vec![to(
            "ann",
            ServerMessage::TurnConfig { success: false, data: None, error: Some(s("TURN server not configured")) }
        )]
    );
}

#[test]
fn dispatch_refresh_with_valid_credential() {
    let mut st = state_with(4, 1000, &["ann"]);
    let out = handle_client_message(
        &mut st,
        &s("ann"),
        ClientMessage::RefreshTurnCredentials { room_id: s("x"), current_username: s("u:18446744073709551615") },
        0,
    );
    assert_eq!(
        out,
        vec![to(
            "ann",
            ServerMessage::TurnConfig { success: true, data: None, error: Some(s("Credentials still valid")) }
        )]
    );
}

#[test]
fn dispatch_refresh_with_expired_credential_requests_anew() {
    let mut st = state_with(4, 1000, &["ann"]);
    let out = handle_client_message(
        &mut st,
        &s("ann"),
        ClientMessage::RefreshTurnCredentials { room_id: s("x"), current_username: s("user_1_0:2") },
        0,
    );
    assert_eq!(
        out,
        vec![to(
            "ann",
            ServerMessage::TurnConfig { success: false, data: None, error: Some(s("TURN server not configured")) }
        )]
    );
}
