//! Messages exchanged between clients and the server.

use crate::turn::{ice_view, ice_views};
use vstd::prelude::*;

verus! {

/// A message from a client to the server.
#[derive(Clone, Debug, PartialEq)]
pub enum ClientMessage {
    Heartbeat,
    JoinRoom { room_id: String },
    LeaveRoom,
    Offer { room_id: String, sdp: String, target: Option<String> },
    Answer { room_id: String, sdp: String, target: Option<String> },
    IceCandidate { room_id: String, candidate: String, target: Option<String> },
    Manifest { room_id: String, manifest: String, target: Option<String> },
    TransferReady { room_id: String, target: Option<String> },
    TransferComplete { room_id: String, target: Option<String> },
    RequestTurnConfig { room_id: String, force_refresh: Option<bool> },
    RefreshTurnCredentials { room_id: String, current_username: String },
    CheckTurnServerStatus,
}

/// A message from the server to a client.
#[derive(Clone, Debug, PartialEq)]
pub enum ServerMessage {
    Connected { socket_id: String },
    HeartbeatAck,
    Error { code: String, message: String },
    JoinedRoom { room_id: String, socket_id: String, user_count: usize },
    RoomUsers { users: Vec<String> },
    PeerJoined { socket_id: String, room_id: String },
    UserLeft { socket_id: String },
    RoomFull { room_id: String },
    Offer { from: String, sdp: String },
    Answer { from: String, sdp: String },
    IceCandidate { from: String, candidate: String },
    Manifest { from: String, manifest: String },
    TransferReady { from: String },
    TransferComplete { from: String },
    TurnConfig { success: bool, data: Option<TurnConfigData>, error: Option<String> },
    TurnServerStatusUpdate { room_id: String, timestamp: u64 },
}

/// Relay endpoints handed to a client, with their lifetime.
#[derive(Clone, Debug, PartialEq)]
pub struct TurnConfigData {
    pub ice_servers: Vec<IceServer>,
    pub ttl: u64,
    pub timestamp: u64,
    pub room_id: String,
}

/// One relay or discovery endpoint.
#[derive(Clone, Debug, PartialEq)]
pub struct IceServer {
    pub urls: Vec<String>,
    pub username: Option<String>,
    pub credential: Option<String>,
    pub credential_type: Option<String>,
}

/// A message addressed to one peer.
#[derive(Clone, Debug, PartialEq)]
pub struct Delivery {
    pub to: String,
    pub message: ServerMessage,
}

/// The contents of a `ServerMessage`, with text as character sequences.
pub enum MessageView {
    Connected { socket_id: Seq<char> },
    HeartbeatAck,
    Error { code: Seq<char>, message: Seq<char> },
    JoinedRoom { room_id: Seq<char>, socket_id: Seq<char>, user_count: nat },
    RoomUsers { users: Seq<Seq<char>> },
    PeerJoined { socket_id: Seq<char>, room_id: Seq<char> },
    UserLeft { socket_id: Seq<char> },
    RoomFull { room_id: Seq<char> },
    Offer { from: Seq<char>, sdp: Seq<char> },
    Answer { from: Seq<char>, sdp: Seq<char> },
    IceCandidate { from: Seq<char>, candidate: Seq<char> },
    Manifest { from: Seq<char>, manifest: Seq<char> },
    TransferReady { from: Seq<char> },
    TransferComplete { from: Seq<char> },
    TurnConfig { success: bool, has_data: bool, error: Option<Seq<char>> },
    TurnServerStatusUpdate { room_id: Seq<char>, timestamp: u64 },
}

/// The character sequences of a list of strings.
pub open spec fn strs(v: Seq<String>) -> Seq<Seq<char>> {
    v.map_values(|s: String| s@)
}

pub open spec fn opt_str(o: Option<String>) -> Option<Seq<char>> {
    match o {
        Some(s) => Some(s@),
        None => None,
    }
}

impl View for ServerMessage {
    type V = MessageView;

    open spec fn view(&self) -> MessageView {
        match self {
            ServerMessage::Connected { socket_id } => MessageView::Connected { socket_id: socket_id@ },
            ServerMessage::HeartbeatAck => MessageView::HeartbeatAck,
            ServerMessage::Error { code, message } => MessageView::Error {
                code: code@,
                message: message@,
            },
            ServerMessage::JoinedRoom { room_id, socket_id, user_count } => MessageView::JoinedRoom {
                room_id: room_id@,
                socket_id: socket_id@,
                user_count: *user_count as nat,
            },
            ServerMessage::RoomUsers { users } => MessageView::RoomUsers { users: strs(users@) },
            ServerMessage::PeerJoined { socket_id, room_id } => MessageView::PeerJoined {
                socket_id: socket_id@,
                room_id: room_id@,
            },
            ServerMessage::UserLeft { socket_id } => MessageView::UserLeft { socket_id: socket_id@ },
            ServerMessage::RoomFull { room_id } => MessageView::RoomFull { room_id: room_id@ },
            ServerMessage::Offer { from, sdp } => MessageView::Offer { from: from@, sdp: sdp@ },
            ServerMessage::Answer { from, sdp } => MessageView::Answer { from: from@, sdp: sdp@ },
            ServerMessage::IceCandidate { from, candidate } => MessageView::IceCandidate {
                from: from@,
                candidate: candidate@,
            },
            ServerMessage::Manifest { from, manifest } => MessageView::Manifest {
                from: from@,
                manifest: manifest@,
            },
            ServerMessage::TransferReady { from } => MessageView::TransferReady { from: from@ },
            ServerMessage::TransferComplete { from } => MessageView::TransferComplete { from: from@ },
            ServerMessage::TurnConfig { success, data, error } => MessageView::TurnConfig {
                success: *success,
                has_data: data is Some,
                error: opt_str(*error),
            },
            ServerMessage::TurnServerStatusUpdate { room_id, timestamp } =>
                MessageView::TurnServerStatusUpdate { room_id: room_id@, timestamp: *timestamp },
        }
    }
}

impl View for Delivery {
    type V = (Seq<char>, MessageView);

    open spec fn view(&self) -> (Seq<char>, MessageView) {
        (self.to@, self.message@)
    }
}

/// What a list of deliveries sends, in order.
pub open spec fn sent(v: Seq<Delivery>) -> Seq<(Seq<char>, MessageView)> {
    v.map_values(|d: Delivery| d@)
}

/// Copies a message.
pub fn clone_message(m: &ServerMessage) -> (r: ServerMessage)
    ensures
        r@ == m@,
{
    match m {
        ServerMessage::Connected { socket_id } => ServerMessage::Connected { socket_id: socket_id.clone() },
        ServerMessage::HeartbeatAck => ServerMessage::HeartbeatAck,
        ServerMessage::Error { code, message } => ServerMessage::Error {
            code: code.clone(),
            message: message.clone(),
        },
        ServerMessage::JoinedRoom { room_id, socket_id, user_count } => ServerMessage::JoinedRoom {
            room_id: room_id.clone(),
            socket_id: socket_id.clone(),
            user_count: *user_count,
        },
        ServerMessage::RoomUsers { users } => ServerMessage::RoomUsers { users: clone_strings(users) },
        ServerMessage::PeerJoined { socket_id, room_id } => ServerMessage::PeerJoined {
            socket_id: socket_id.clone(),
            room_id: room_id.clone(),
        },
        ServerMessage::UserLeft { socket_id } => ServerMessage::UserLeft { socket_id: socket_id.clone() },
        ServerMessage::RoomFull { room_id } => ServerMessage::RoomFull { room_id: room_id.clone() },
        ServerMessage::Offer { from, sdp } => ServerMessage::Offer { from: from.clone(), sdp: sdp.clone() },
        ServerMessage::Answer { from, sdp } => ServerMessage::Answer { from: from.clone(), sdp: sdp.clone() },
        ServerMessage::IceCandidate { from, candidate } => ServerMessage::IceCandidate {
            from: from.clone(),
            candidate: candidate.clone(),
        },
        ServerMessage::Manifest { from, manifest } => ServerMessage::Manifest {
            from: from.clone(),
            manifest: manifest.clone(),
        },
        ServerMessage::TransferReady { from } => ServerMessage::TransferReady { from: from.clone() },
        ServerMessage::TransferComplete { from } => ServerMessage::TransferComplete { from: from.clone() },
        ServerMessage::TurnConfig { success, data, error } => ServerMessage::TurnConfig {
            success: *success,
            data: match data {
                Some(d) => Some(clone_turn_data(d)),
                None => None,
            },
            error: match error {
                Some(e) => Some(e.clone()),
                None => None,
            },
        },
        ServerMessage::TurnServerStatusUpdate { room_id, timestamp } =>
            ServerMessage::TurnServerStatusUpdate { room_id: room_id.clone(), timestamp: *timestamp },
    }
}

/// Copies a list of strings.
pub fn clone_strings(v: &Vec<String>) -> (r: Vec<String>)
    ensures
        strs(r@) == strs(v@),
{
    let mut r: Vec<String> = Vec::new();
    let mut i: usize = 0;
    while i < v.len()
        invariant
            i <= v.len(),
            r@.len() == i,
            forall|j: int| 0 <= j < i ==> r@[j]@ == v@[j]@,
        decreases v.len() - i,
    {
        r.push(v[i].clone());
        i += 1;
    }
    assert(strs(r@) =~= strs(v@));
    r
}

fn clone_opt(o: &Option<String>) -> (r: Option<String>)
    ensures
        opt_str(r) == opt_str(*o),
{
    match o {
        Some(s) => Some(s.clone()),
        None => None,
    }
}

fn clone_turn_data(d: &TurnConfigData) -> (r: TurnConfigData)
    ensures
        r.ttl == d.ttl,
        r.timestamp == d.timestamp,
        r.room_id@ == d.room_id@,
        ice_views(r.ice_servers@) == ice_views(d.ice_servers@),
{
    let mut servers: Vec<IceServer> = Vec::new();
    let mut i: usize = 0;
    while i < d.ice_servers.len()
        invariant
            i <= d.ice_servers.len(),
            servers@.len() == i,
            forall|k: int| 0 <= k < i ==> ice_view(#[trigger] servers@[k]) == ice_view(d.ice_servers@[k]),
        decreases d.ice_servers.len() - i,
    {
        let s = &d.ice_servers[i];
        servers.push(
            IceServer {
                urls: clone_strings(&s.urls),
                username: clone_opt(&s.username),
                credential: clone_opt(&s.credential),
                credential_type: clone_opt(&s.credential_type),
            },
        );
        i += 1;
    }
    proof {
        assert(ice_views(servers@) =~= ice_views(d.ice_servers@));
    }
    TurnConfigData {
        ice_servers: servers,
        ttl: d.ttl,
        timestamp: d.timestamp,
        room_id: d.room_id.clone(),
    }
}

} // verus!
