//! Time-limited relay credentials.

use crate::config::TurnConfig;
use crate::protocol::{opt_str, strs, IceServer, MessageView, ServerMessage, TurnConfigData};
use crate::state::AppState;
use crate::text::{
    dec_of, decimal, digit_char, hex_of, is_digit, digits_value, last_colon, last_field,
    last_field_of, lower_hex, parse_u64, parse_u64_of,
};
use base64::Engine;
use hmac::Mac;
use vstd::prelude::*;
use vstd::string::StringExecFns;

verus! {

/// HMAC-SHA1 of the UTF-8 text `msg` under the UTF-8 key `key`.
pub uninterp spec fn hmac_sha1_of(key: Seq<char>, msg: Seq<char>) -> Seq<u8>;

/// Standard base64 text of `b`, with padding.
pub uninterp spec fn base64_of(b: Seq<u8>) -> Seq<char>;

/// Relies on hmac's `Hmac<Sha1>` (`new_from_slice`, `update`, `finalize`):
/// the keyed hash of `msg` under `key`. Any key length is accepted.
#[verifier::external_body]
fn hmac_sha1(key: &str, msg: &str) -> (r: Vec<u8>)
    ensures
        r@ == hmac_sha1_of(key@, msg@),
        r@.len() == 20,
{
    let mut mac = <hmac::Hmac<sha1::Sha1> as Mac>::new_from_slice(key.as_bytes())
        .expect("HMAC accepts a key of any length");
    mac.update(msg.as_bytes());
    mac.finalize().into_bytes().to_vec()
}

/// Relies on base64's `general_purpose::STANDARD` engine and its `encode`.
#[verifier::external_body]
fn base64_encode(b: &Vec<u8>) -> (r: String)
    ensures
        r@ == base64_of(b@),
{
    base64::engine::general_purpose::STANDARD.encode(b)
}

/// Relies on rand's `random::<u64>`: any 64-bit value.
#[verifier::external_body]
fn random_u64() -> u64 {
    rand::random::<u64>()
}

/// Relies on std's `SystemTime::duration_since(UNIX_EPOCH)`: whole seconds
/// since the Unix epoch, or nothing for a clock set before it.
#[verifier::external_body]
fn unix_secs() -> Option<u64> {
    std::time::SystemTime::now().duration_since(std::time::UNIX_EPOCH).ok().map(|d| d.as_secs())
}

/// The user name of a credential issued at `now` with nonce `nonce`,
/// valid until `expiry`.
pub open spec fn username_of(now: u64, nonce: u64, expiry: nat) -> Seq<char> {
    "user_"@ + dec_of(now as nat) + "_"@ + hex_of(nonce as nat) + ":"@ + dec_of(expiry)
}

/// The password of user name `user` under the shared secret `secret`.
pub open spec fn password_of(user: Seq<char>, secret: Seq<char>) -> Seq<char> {
    base64_of(hmac_sha1_of(secret, user))
}

/// Whether user name `user` is still valid at `now`: its field after the
/// last `:` is a number greater than `now`.
pub open spec fn credential_valid(user: Seq<char>, now: u64) -> bool {
    match parse_u64_of(last_field(user)) {
        Some(e) => e > now,
        None => false,
    }
}

pub open spec fn turn_url(host: Seq<char>, port: u16) -> Seq<char> {
    "turn:"@ + host + ":"@ + dec_of(port as nat)
}

pub open spec fn turns_url(host: Seq<char>, port: u16) -> Seq<char> {
    "turns:"@ + host + ":"@ + dec_of(port as nat) + "?transport=tcp"@
}

pub open spec fn stun_url(host: Seq<char>, port: u16) -> Seq<char> {
    "stun:"@ + host + ":"@ + dec_of(port as nat)
}

pub open spec fn fallback_url(c: TurnConfig, f: Seq<char>) -> Seq<char> {
    if c.enable_tls {
        turns_url(f, c.ports.tls)
    } else {
        turn_url(f, c.ports.udp)
    }
}

/// The relay addresses: one per enabled transport, then one per fallback server.
pub open spec fn relay_urls(c: TurnConfig) -> Seq<Seq<char>> {
    (if c.enable_udp {
        seq![turn_url(c.url@, c.ports.udp)]
    } else {
        seq![]
    }) + (if c.enable_tcp {
        seq![turn_url(c.url@, c.ports.tcp)]
    } else {
        seq![]
    }) + (if c.enable_tls {
        seq![turns_url(c.url@, c.ports.tls)]
    } else {
        seq![]
    }) + strs(c.fallback_servers@).map_values(|f: Seq<char>| fallback_url(c, f))
}

/// An endpoint as its addresses, user name, credential and credential type.
pub open spec fn ice_view(s: IceServer) -> (
    Seq<Seq<char>>,
    Option<Seq<char>>,
    Option<Seq<char>>,
    Option<Seq<char>>,
) {
    (strs(s.urls@), opt_str(s.username), opt_str(s.credential), opt_str(s.credential_type))
}

/// The endpoints handed out: each relay address with the credential, then
/// the discovery address without one when UDP is enabled.
pub open spec fn ice_servers_spec(c: TurnConfig, user: Seq<char>, pass: Seq<char>) -> Seq<
    (Seq<Seq<char>>, Option<Seq<char>>, Option<Seq<char>>, Option<Seq<char>>),
> {
    relay_urls(c).map_values(
        |u: Seq<char>| (seq![u], Some(user), Some(pass), Some("password"@)),
    ) + if c.enable_udp {
        seq![(seq![stun_url(c.url@, c.ports.udp)], None, None, None)]
    } else {
        seq![]
    }
}

pub open spec fn ice_views(v: Seq<IceServer>) -> Seq<
    (Seq<Seq<char>>, Option<Seq<char>>, Option<Seq<char>>, Option<Seq<char>>),
> {
    v.map_values(|s: IceServer| ice_view(s))
}

/// The password of `username` under `secret`.
pub fn generate_hmac_hash(username: &str, secret: &str) -> (r: String)
    ensures
        r@ == password_of(username@, secret@),
{
    let digest = hmac_sha1(secret, username);
    base64_encode(&digest)
}

/// The user name for issue time `now`, nonce `nonce` and lifetime `ttl`.
pub fn credential_username(now: u64, nonce: u64, ttl: u64) -> (r: String)
    requires
        now + ttl <= u64::MAX,
    ensures
        r@ == username_of(now, nonce, (now + ttl) as nat),
{
    let expiry = now + ttl;
    let mut s = <String as StringExecFns>::from_str("user_");
    s.append(decimal(now).as_str());
    s.append("_");
    s.append(lower_hex(nonce).as_str());
    s.append(":");
    s.append(decimal(expiry).as_str());
    s
}

fn plain_url(scheme: &str, host: &String, port: u16) -> (r: String)
    ensures
        r@ == scheme@ + host@ + ":"@ + dec_of(port as nat),
{
    let mut s = <String as StringExecFns>::from_str(scheme);
    s.append(host.as_str());
    s.append(":");
    s.append(decimal(port as u64).as_str());
    s
}

fn tls_url(host: &String, port: u16) -> (r: String)
    ensures
        r@ == turns_url(host@, port),
{
    let mut s = plain_url("turns:", host, port);
    s.append("?transport=tcp");
    s
}

fn relay_url_list(config: &TurnConfig) -> (r: Vec<String>)
    ensures
        strs(r@) == relay_urls(*config),
{
    let mut urls: Vec<String> = Vec::new();
    if config.enable_udp {
        urls.push(plain_url("turn:", &config.url, config.ports.udp));
    }
    if config.enable_tcp {
        urls.push(plain_url("turn:", &config.url, config.ports.tcp));
    }
    if config.enable_tls {
        urls.push(tls_url(&config.url, config.ports.tls));
    }
    let ghost base = strs(urls@);
    let ghost n0 = urls@.len();
    let fallbacks = &config.fallback_servers;
    proof {
        assert(base =~= (if config.enable_udp {
            seq![turn_url(config.url@, config.ports.udp)]
        } else {
            seq![]
        }) + (if config.enable_tcp {
            seq![turn_url(config.url@, config.ports.tcp)]
        } else {
            seq![]
        }) + (if config.enable_tls {
            seq![turns_url(config.url@, config.ports.tls)]
        } else {
            seq![]
        }));
    }
    let mut i: usize = 0;
    while i < fallbacks.len()
        invariant
            i <= fallbacks@.len(),
            fallbacks == &config.fallback_servers,
            urls@.len() == n0 + i,
            n0 == base.len(),
            forall|k: int| 0 <= k < n0 ==> #[trigger] urls@[k]@ == base[k],
            forall|k: int| 0 <= k < i ==> #[trigger] urls@[n0 + k]@ == fallback_url(*config, fallbacks@[k]@),
        decreases fallbacks.len() - i,
    {
        if config.enable_tls {
            urls.push(tls_url(&fallbacks[i], config.ports.tls));
        } else {
            urls.push(plain_url("turn:", &fallbacks[i], config.ports.udp));
        }
        proof {
            assert(urls@[n0 + i as int]@ == fallback_url(*config, fallbacks@[i as int]@));
        }
        i += 1;
    }
    proof {
        let want = relay_urls(*config);
        assert forall|k: int| 0 <= k < urls@.len() implies #[trigger] strs(urls@)[k] == want[k] by {
            if k >= n0 {
                assert(urls@[n0 + (k - n0)]@ == fallback_url(*config, fallbacks@[k - n0]@));
            }
        }
        assert(strs(urls@) =~= want);
    }
    urls
}

fn one(s: String) -> (r: Vec<String>)
    ensures
        strs(r@) == seq![s@],
{
    let mut v: Vec<String> = Vec::new();
    v.push(s);
    proof {
        assert(strs(v@) =~= seq![s@]);
    }
    v
}

/// The endpoints for `config`, each relay address carrying `username` and `password`.
pub fn build_ice_servers(config: &TurnConfig, username: &String, password: &String) -> (r: Vec<
    IceServer,
>)
    ensures
        ice_views(r@) == ice_servers_spec(*config, username@, password@),
{
    let urls = relay_url_list(config);
    let mut servers: Vec<IceServer> = Vec::new();
    let ghost want = ice_servers_spec(*config, username@, password@);
    let mut i: usize = 0;
    while i < urls.len()
        invariant
            i <= urls@.len(),
            strs(urls@) == relay_urls(*config),
            want == ice_servers_spec(*config, username@, password@),
            servers@.len() == i,
            forall|k: int| 0 <= k < i ==> ice_view(#[trigger] servers@[k]) == want[k],
        decreases urls.len() - i,
    {
        let server = IceServer {
            urls: one(urls[i].clone()),
            username: Some(username.clone()),
            credential: Some(password.clone()),
            credential_type: Some(<String as StringExecFns>::from_str("password")),
        };
        servers.push(server);
        proof {
            assert(ice_view(servers@[i as int]) == want[i as int]);
        }
        i += 1;
    }
    if config.enable_udp {
        let server = IceServer {
            urls: one(plain_url("stun:", &config.url, config.ports.udp)),
            username: None,
            credential: None,
            credential_type: None,
        };
        servers.push(server);
    }
    proof {
        assert(ice_views(servers@) =~= want);
    }
    servers
}

/// The endpoints of a credential issued at `now` with nonce `nonce`.
pub open spec fn issued(c: TurnConfig, now: u64, nonce: u64) -> Seq<
    (Seq<Seq<char>>, Option<Seq<char>>, Option<Seq<char>>, Option<Seq<char>>),
> {
    let user = username_of(now, nonce, (now + c.credential_ttl) as nat);
    ice_servers_spec(c, user, password_of(user, c.secret@))
}

/// Issues a credential at `now` with nonce `nonce` and returns its endpoints.
pub fn generate_credentials(config: &TurnConfig, now: u64, nonce: u64) -> (r: Vec<IceServer>)
    requires
        now + config.credential_ttl <= u64::MAX,
    ensures
        ice_views(r@) == issued(*config, now, nonce),
{
    let username = credential_username(now, nonce, config.credential_ttl);
    let password = generate_hmac_hash(username.as_str(), config.secret.as_str());
    build_ice_servers(config, &username, &password)
}

/// Whether credentials can be issued: a relay address and a secret are set.
pub open spec fn turn_configured(c: TurnConfig) -> bool {
    c.url@.len() > 0 && c.secret@.len() > 0
}

/// A failed reply to a request for relay settings, with reason `e`.
pub open spec fn turn_failure(e: Seq<char>) -> MessageView {
    MessageView::TurnConfig { success: false, has_data: false, error: Some(e) }
}

/// Whether `r` is a successful reply to room `room` carrying the endpoints
/// of a credential issued at `now` with nonce `nonce`.
pub open spec fn issued_reply(r: ServerMessage, c: TurnConfig, room: Seq<char>, now: u64, nonce: u64) -> bool {
    match r {
        ServerMessage::TurnConfig { success: true, data: Some(d), error: None } => {
            &&& d.ttl == c.credential_ttl
            &&& d.timestamp == now
            &&& d.room_id@ == room
            &&& ice_views(d.ice_servers@) == issued(c, now, nonce)
        },
        _ => false,
    }
}

/// The reply to a request for relay settings from room `room_id`, at `now`
/// with nonce `nonce`.
pub fn turn_config_response(config: &TurnConfig, room_id: &String, now: u64, nonce: u64) -> (r: ServerMessage)
    ensures
        !turn_configured(*config) ==> r@ == turn_failure("TURN server not configured"@),
        turn_configured(*config) && now + config.credential_ttl > u64::MAX ==> r@ == turn_failure(
            "credential lifetime out of range"@,
        ),
        turn_configured(*config) && now + config.credential_ttl <= u64::MAX ==> issued_reply(
            r,
            *config,
            room_id@,
            now,
            nonce,
        ),
{
    if config.url.unicode_len() == 0 || config.secret.unicode_len() == 0 {
        return ServerMessage::TurnConfig {
            success: false,
            data: None,
            error: Some(<String as StringExecFns>::from_str("TURN server not configured")),
        };
    }
    if now > u64::MAX - config.credential_ttl {
        return ServerMessage::TurnConfig {
            success: false,
            data: None,
            error: Some(<String as StringExecFns>::from_str("credential lifetime out of range")),
        };
    }
    let servers = generate_credentials(config, now, nonce);
    ServerMessage::TurnConfig {
        success: true,
        data: Some(
            TurnConfigData {
                ice_servers: servers,
                ttl: config.credential_ttl,
                timestamp: now,
                room_id: room_id.clone(),
            },
        ),
        error: None,
    }
}

/// What a request for relay settings from room `room` may get. Without a
/// relay address or secret: the not-configured failure. Otherwise: a reply
/// issued at some time with some nonce; the lifetime failure, which needs a
/// non-zero lifetime; or the clock failure when the clock reads before the
/// Unix epoch.
pub open spec fn turn_request_reply(r: ServerMessage, c: TurnConfig, room: Seq<char>) -> bool {
    if !turn_configured(c) {
        r@ == turn_failure("TURN server not configured"@)
    } else {
        ||| (exists|now: u64, nonce: u64| #[trigger] issued_reply(r, c, room, now, nonce))
        ||| (c.credential_ttl > 0 && r@ == turn_failure("credential lifetime out of range"@))
        ||| r@ == turn_failure("system clock before the Unix epoch"@)
    }
}

fn failure_reply(e: &str) -> (r: ServerMessage)
    ensures
        r@ == turn_failure(e@),
{
    ServerMessage::TurnConfig {
        success: false,
        data: None,
        error: Some(<String as StringExecFns>::from_str(e)),
    }
}

/// The reply to a request for relay settings from room `room_id`, issued
/// now with a random nonce.
pub fn handle_turn_config_request(state: &AppState, room_id: &String) -> (r: ServerMessage)
    ensures
        turn_request_reply(r, state.config.turn, room_id@),
        turn_configured(state.config.turn) ==> r@ != turn_failure("TURN server not configured"@),
{
    let config = &state.config.turn;
    proof {
        reveal_strlit("TURN server not configured");
        reveal_strlit("credential lifetime out of range");
        reveal_strlit("system clock before the Unix epoch");
        assert("TURN server not configured"@.len() == 26);
        assert("credential lifetime out of range"@.len() == 32);
        assert("system clock before the Unix epoch"@.len() == 34);
    }
    match unix_secs() {
        Some(now) => {
            let nonce = random_u64();
            let r = turn_config_response(config, room_id, now, nonce);
            proof {
                if turn_configured(*config) && now + config.credential_ttl <= u64::MAX {
                    assert(issued_reply(r, *config, room_id@, now, nonce));
                }
            }
            r
        },
        None => {
            if config.url.unicode_len() == 0 || config.secret.unicode_len() == 0 {
                failure_reply("TURN server not configured")
            } else {
                failure_reply("system clock before the Unix epoch")
            }
        },
    }
}

/// Whether user name `username` is still valid at `now`.
pub fn credential_valid_at(username: &str, now: u64) -> (r: bool)
    ensures
        r == credential_valid(username@, now),
{
    match parse_u64(last_field_of(username)) {
        Some(e) => e > now,
        None => false,
    }
}

/// Whether user name `username` is still valid by the system clock.
pub fn validate_credentials(username: &str) -> (r: bool)
    ensures
        r ==> parse_u64_of(last_field(username@)) is Some,
        r ==> (exists|now: u64| #[trigger] credential_valid(username@, now)),
{
    match unix_secs() {
        Some(now) => credential_valid_at(username, now),
        None => false,
    }
}

proof fn lemma_digit_char(d: nat)
    requires
        d < 10,
    ensures
        is_digit(digit_char(d)),
        (digit_char(d) as u32) - ('0' as u32) == d,
{
    if d == 0 {
    } else if d == 1 {
    } else if d == 2 {
    } else if d == 3 {
    } else if d == 4 {
    } else if d == 5 {
    } else if d == 6 {
    } else if d == 7 {
    } else if d == 8 {
    } else {
    }
}

proof fn lemma_dec_of(n: nat)
    ensures
        dec_of(n).len() > 0,
        forall|i: int| 0 <= i < dec_of(n).len() ==> is_digit(#[trigger] dec_of(n)[i]),
        digits_value(dec_of(n)) == n,
    decreases n,
{
    if n < 10 {
        lemma_digit_char(n);
        assert(dec_of(n).drop_last() =~= seq![]);
        assert(digits_value(seq![]) == 0);
        assert(dec_of(n).last() == digit_char(n));
    } else {
        lemma_dec_of(n / 10);
        lemma_digit_char(n % 10);
        let d = dec_of(n);
        assert(d.drop_last() =~= dec_of(n / 10));
        assert(d.last() == digit_char(n % 10));
        assert((n / 10) * 10 + n % 10 == n) by (nonlinear_arith);
        assert forall|i: int| 0 <= i < d.len() implies is_digit(#[trigger] d[i]) by {
            if i < d.len() - 1 {
                assert(d[i] == dec_of(n / 10)[i]);
            }
        }
    }
}

proof fn lemma_last_colon_suffix(a: Seq<char>, d: Seq<char>)
    requires
        forall|i: int| 0 <= i < d.len() ==> #[trigger] d[i] != ':',
    ensures
        last_colon(a.push(':') + d) == a.len(),
    decreases d.len(),
{
    if d.len() == 0 {
        assert(a.push(':') + d =~= a.push(':'));
    } else {
        lemma_last_colon_suffix(a, d.drop_last());
        assert((a.push(':') + d).drop_last() =~= a.push(':') + d.drop_last());
        assert((a.push(':') + d).last() == d.last());
    }
}

/// A user name issued at `now` with lifetime `ttl` is valid at time `t`
/// exactly when `t` is before `now + ttl`.
pub proof fn lemma_credential_round_trip(now: u64, nonce: u64, ttl: u64, t: u64)
    requires
        now + ttl <= u64::MAX,
    ensures
        credential_valid(username_of(now, nonce, (now + ttl) as nat), t) <==> t < now + ttl,
{
    let e = (now + ttl) as nat;
    let a = "user_"@ + dec_of(now as nat) + "_"@ + hex_of(nonce as nat);
    let d = dec_of(e);
    reveal_strlit(":");
    assert(":"@ =~= seq![':']);
    let u = username_of(now, nonce, e);
    assert(u =~= a.push(':') + d);
    lemma_dec_of(e);
    assert forall|i: int| 0 <= i < d.len() implies #[trigger] d[i] != ':' by {
        assert(is_digit(d[i]));
    }
    lemma_last_colon_suffix(a, d);
    assert(last_field(u) =~= d);
    assert(d[0] != '+') by {
        assert(is_digit(d[0]));
    }
    assert(parse_u64_of(d) == Some(e as u64));
}

} // verus!
