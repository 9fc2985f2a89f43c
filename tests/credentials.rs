use ponswarp_signaling::config::{TurnConfig, TurnPorts};
use ponswarp_signaling::protocol::{IceServer, ServerMessage};
use ponswarp_signaling::text::last_field_of;
use ponswarp_signaling::state::AppState;
use ponswarp_signaling::config::{Config, RoomConfig};
use ponswarp_signaling::turn::{
    handle_turn_config_request,
    build_ice_servers, credential_username, credential_valid_at, generate_credentials,
    generate_hmac_hash, turn_config_response, validate_credentials,
};

fn s(x: &str) -> String {
    x.to_string()
}

fn turn(url: &str, secret: &str, udp: bool, tcp: bool, tls: bool, fallback: &[&str]) -> TurnConfig {
    TurnConfig {
        url: s(url),
        secret: s(secret),
        realm: String::new(),
        enable_tls: tls,
        enable_udp: udp,
        enable_tcp: tcp,
        ports: TurnPorts { udp: 3478, tcp: 3479, tls: 443 },
        credential_ttl: 3600,
        fallback_servers: fallback.iter().map(|x| x.to_string()).collect(),
    }
}

fn relay(url: &str, user: &str, pass: &str) -> IceServer {
    IceServer {
        urls: vec![s(url)],
        username: Some(s(user)),
        credential: Some(s(pass)),
        credential_type: Some(s("password")),
    }
}

#[test]
fn username_layout() {
    assert_eq!(credential_username(1000, 255, 3600), "user_1000_ff:4600");
    assert_eq!(credential_username(0, 0, 0), "user_0_0:0");
}

#[test]
fn hmac_password_known_value() {
    assert_eq!(
        generate_hmac_hash("The quick brown fox jumps over the lazy dog", "key"),
        "3nybhbi3iqa8ino29wqQcBydtNk="
    );
    assert_eq!(generate_hmac_hash("user_1000_ff:4600", "secret"), "CabcYphIPwPetva/KOzAd2OpLwE=");
}

#[test]
fn credential_round_trip() {
    let user = credential_username(1000, 0xabc, 3600);
    assert!(credential_valid_at(&user, 1000));
    assert!(credential_valid_at(&user, 4599));
    assert!(!credential_valid_at(&user, 4600));
    assert!(!credential_valid_at(&user, 10_000));
}

#[test]
fn fresh_credential_validates_now() {
    let now = std::time::SystemTime::now().duration_since(std::time::UNIX_EPOCH).unwrap().as_secs();
    let user = credential_username(now, 7, 3600);
    assert!(validate_credentials(&user));
    let expired = credential_username(now - 7200, 7, 3600);
    assert!(!validate_credentials(&expired));
}

#[test]
fn malformed_usernames_are_invalid() {
    assert!(!credential_valid_at("abc", 0));
    assert!(!credential_valid_at("user:", 0));
    assert!(!credential_valid_at("user:-5", 0));
    assert!(!credential_valid_at("user:99999999999999999999", 0));
    assert!(credential_valid_at("a:b:+5", 4));
    assert!(credential_valid_at("17", 3));
}

#[test]
fn last_field_splits_at_last_colon() {
    assert_eq!(last_field_of("a:b:c"), "c");
    assert_eq!(last_field_of("abc"), "abc");
    assert_eq!(last_field_of("abc:"), "");
}

#[test]
fn servers_for_udp_and_tcp_with_fallback() {
    let c = turn("relay.example", "k", true, true, false, &["fb.example"]);
    let out = build_ice_servers(&c, &s("u"), &s("p"));
    assert_eq!(
        out,
        vec![
            relay("turn:relay.example:3478", "u", "p"),
            relay("turn:relay.example:3479", "u", "p"),
            relay("turn:fb.example:3478", "u", "p"),
            IceServer { urls: vec![s("stun:relay.example:3478")], username: None, credential: None, credential_type: None },
        ]
    );
}

#[test]
fn servers_for_tls_only() {
    let c = turn("relay.example", "k", false, false, true, &["fb.example"]);
    let out = build_ice_servers(&c, &s("u"), &s("p"));
    assert_eq!(
        out,
        vec![
            relay("turns:relay.example:443?transport=tcp", "u", "p"),
            relay("turns:fb.example:443?transport=tcp", "u", "p"),
        ]
    );
}

#[test]
fn generated_credentials_share_user_and_password() {
    let c = turn("relay.example", "secret", true, false, false, &[]);
    let out = generate_credentials(&c, 1000, 255);
    assert_eq!(
        out,
        vec![
            relay("turn:relay.example:3478", "user_1000_ff:4600", "CabcYphIPwPetva/KOzAd2OpLwE="),
            IceServer { urls: vec![s("stun:relay.example:3478")], username: None, credential: None, credential_type: None },
        ]
    );
}

#[test]
fn unconfigured_turn_is_reported() {
    let c = turn("", "secret", true, true, false, &[]);
    let r = turn_config_response(&c, &s("room"), 1000, 1);
    assert_eq!(r, ServerMessage::TurnConfig { success: false, data: None, error: Some(s("TURN server not configured")) });
    let c = turn("relay.example", "", true, true, false, &[]);
    let r = turn_config_response(&c, &s("room"), 1000, 1);
    assert_eq!(r, ServerMessage::TurnConfig { success: false, data: None, error: Some(s("TURN server not configured")) });
}

#[test]
fn lifetime_overflow_is_reported() {
    let c = turn("relay.example", "secret", true, true, false, &[]);
    let r = turn_config_response(&c, &s("room"), u64::MAX - 10, 1);
    assert_eq!(
        r,
        ServerMessage::TurnConfig { success: false, data: None, error: Some(s("credential lifetime out of range")) }
    );
}

#[test]
fn configured_turn_reply_carries_data() {
    let c = turn("relay.example", "secret", true, false, false, &[]);
    match turn_config_response(&c, &s("room"), 1000, 255) {
        ServerMessage::TurnConfig { success: true, data: Some(d), error: None } => {
            assert_eq!(d.ttl, 3600);
            assert_eq!(d.timestamp, 1000);
            assert_eq!(d.room_id, "room");
            assert_eq!(d.ice_servers.len(), 2);
            assert_eq!(d.ice_servers[0].username, Some(s("user_1000_ff:4600")));
        }
        other => panic!("unexpected reply {:?}", other),
    }
}

fn app_with(turn: TurnConfig) -> AppState {
    AppState::new(Config {
        port: 5502,
        host: s("0.0.0.0"),
        cors_origins: vec![],
        room: RoomConfig { max_size: 4, timeout_ms: 1000 },
        turn,
        log_level: s("info"),
    })
}

#[test]
fn request_issues_for_configured_server() {
    let st = app_with(turn("relay.example", "secret", true, true, false, &[]));
    match handle_turn_config_request(&st, &s("room")) {
        ServerMessage::TurnConfig { success: true, data: Some(d), error: None } => {
            assert_eq!(d.room_id, "room");
            assert_eq!(d.ttl, 3600);
            assert_eq!(d.ice_servers.len(), 3);
            let user = d.ice_servers[0].username.clone().unwrap();
            assert!(validate_credentials(&user));
            assert_eq!(d.ice_servers[0].credential, Some(generate_hmac_hash(&user, "secret")));
            assert_eq!(d.ice_servers[0].credential.as_ref().unwrap().len(), 28);
        }
        other => panic!("unexpected reply {:?}", other),
    }
}

#[test]
fn request_reports_unconfigured_server() {
    let st = app_with(turn("", "", true, true, false, &[]));
    assert_eq!(
        handle_turn_config_request(&st, &s("room")),
        ServerMessage::TurnConfig { success: false, data: None, error: Some(s("TURN server not configured")) }
    );
}
