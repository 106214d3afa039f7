//! The signaling envelope: its kinds, its payloads and their models.

use vstd::prelude::*;

verus! {

#[verifier::external_type_specification]
#[verifier::external_body]
pub struct ExJsonValue(serde_json::Value);

/// Relies on serde_json's `Clone` for `Value`, a derived field-by-field copy:
/// the copy is the same JSON value.
pub assume_specification[ <serde_json::Value as Clone>::clone ](v: &serde_json::Value) -> (r: serde_json::Value)
    ensures
        r == *v,
;

/// The kind of a signaling envelope.
#[derive(Clone, Copy, Debug, PartialEq, Eq, Structural)]
pub enum SignalingMessageType {
    Join,
    Leave,
    Offer,
    Answer,
    IceCandidate,
    RoomInfo,
    Error,
    InferenceResult,
    InferenceUpdate,
    NewPeer,
}

/// One entry of a room's peer list.
#[derive(Clone, Debug)]
pub struct PeerSummary {
    pub id: String,
    pub is_sender: bool,
}

/// The payload of an envelope: an opaque JSON value carried through, or one of
/// the structured payloads that the room manager produces.
#[derive(Clone, Debug)]
pub enum Payload {
    Json(serde_json::Value),
    Error { error: String },
    RoomInfo { room_id: String, mode: String, connection_count: usize, peers: Vec<PeerSummary> },
    NewPeer { connection_id: String, is_sender: bool, connection_count: usize },
    Leave { connection_id: String, connection_count: usize },
    InferenceUpdate { source_sender_id: String, latest: Option<serde_json::Value> },
}

/// A signaling envelope. Absent optional fields are `None`.
#[derive(Clone, Debug)]
pub struct SignalingMessage {
    pub message_type: SignalingMessageType,
    pub connection_id: Option<String>,
    pub source_sender_id: Option<String>,
    pub sender_id: Option<String>,
    pub offer_id: Option<String>,
    pub data: Option<Payload>,
    pub is_sender: Option<bool>,
}

/// Model of a peer-list entry.
pub struct PeerView {
    pub id: Seq<char>,
    pub is_sender: bool,
}

/// Model of a payload.
pub enum PayloadView {
    Json(serde_json::Value),
    Error { error: Seq<char> },
    RoomInfo { room_id: Seq<char>, mode: Seq<char>, connection_count: usize, peers: Seq<PeerView> },
    NewPeer { connection_id: Seq<char>, is_sender: bool, connection_count: usize },
    Leave { connection_id: Seq<char>, connection_count: usize },
    InferenceUpdate { source_sender_id: Seq<char>, latest: Option<serde_json::Value> },
}

/// Model of an envelope.
pub struct MessageView {
    pub message_type: SignalingMessageType,
    pub connection_id: Option<Seq<char>>,
    pub source_sender_id: Option<Seq<char>>,
    pub sender_id: Option<Seq<char>>,
    pub offer_id: Option<Seq<char>>,
    pub data: Option<PayloadView>,
    pub is_sender: Option<bool>,
}

/// The characters of an optional string.
pub open spec fn opt_str(o: Option<String>) -> Option<Seq<char>> {
    match o {
        Some(s) => Some(s@),
        None => None,
    }
}

impl View for PeerSummary {
    type V = PeerView;

    open spec fn view(&self) -> PeerView {
        PeerView { id: self.id@, is_sender: self.is_sender }
    }
}

/// The models of a list of peer entries.
pub open spec fn peer_views(s: Seq<PeerSummary>) -> Seq<PeerView> {
    s.map_values(|p: PeerSummary| p@)
}

impl View for Payload {
    type V = PayloadView;

    open spec fn view(&self) -> PayloadView {
        match self {
            Payload::Json(v) => PayloadView::Json(*v),
            Payload::Error { error } => PayloadView::Error { error: error@ },
            Payload::RoomInfo { room_id, mode, connection_count, peers } => PayloadView::RoomInfo {
                room_id: room_id@,
                mode: mode@,
                connection_count: *connection_count,
                peers: peer_views(peers@),
            },
            Payload::NewPeer { connection_id, is_sender, connection_count } => PayloadView::NewPeer {
                connection_id: connection_id@,
                is_sender: *is_sender,
                connection_count: *connection_count,
            },
            Payload::Leave { connection_id, connection_count } => PayloadView::Leave {
                connection_id: connection_id@,
                connection_count: *connection_count,
            },
            Payload::InferenceUpdate { source_sender_id, latest } => PayloadView::InferenceUpdate {
                source_sender_id: source_sender_id@,
                latest: *latest,
            },
        }
    }
}

/// The model of an optional payload.
pub open spec fn opt_payload(o: Option<Payload>) -> Option<PayloadView> {
    match o {
        Some(p) => Some(p@),
        None => None,
    }
}

impl View for SignalingMessage {
    type V = MessageView;

    open spec fn view(&self) -> MessageView {
        MessageView {
            message_type: self.message_type,
            connection_id: opt_str(self.connection_id),
            source_sender_id: opt_str(self.source_sender_id),
            sender_id: opt_str(self.sender_id),
            offer_id: opt_str(self.offer_id),
            data: opt_payload(self.data),
            is_sender: self.is_sender,
        }
    }
}

/// The models of a list of envelopes.
pub open spec fn message_views(s: Seq<SignalingMessage>) -> Seq<MessageView> {
    s.map_values(|m: SignalingMessage| m@)
}

/// An envelope of the given kind and target with every other field absent.
pub open spec fn bare_message(kind: SignalingMessageType, to: Seq<char>, data: PayloadView) -> MessageView {
    MessageView {
        message_type: kind,
        connection_id: Some(to),
        source_sender_id: None,
        sender_id: None,
        offer_id: None,
        data: Some(data),
        is_sender: None,
    }
}

/// The reason given when a second sender tries to join a room.
pub open spec fn sender_exists_reason() -> Seq<char> {
    "Sender already exists in this room"@
}

/// A copy of a string.
pub fn copy_string(s: &String) -> (r: String)
    ensures
        r@ == s@,
{
    s.clone()
}

/// A copy of an optional string.
pub fn copy_opt_string(o: &Option<String>) -> (r: Option<String>)
    ensures
        opt_str(r) == opt_str(*o),
{
    match o {
        Some(s) => Some(s.clone()),
        None => None,
    }
}

/// A copy of an optional JSON value.
pub fn copy_opt_json(o: &Option<serde_json::Value>) -> (r: Option<serde_json::Value>)
    ensures
        r == *o,
{
    match o {
        Some(v) => Some(v.clone()),
        None => None,
    }
}

impl PeerSummary {
    /// A copy of this entry.
    pub fn duplicate(&self) -> (r: PeerSummary)
        ensures
            r@ == self@,
    {
        PeerSummary { id: self.id.clone(), is_sender: self.is_sender }
    }
}

impl Payload {
    /// A copy of this payload.
    pub fn duplicate(&self) -> (r: Payload)
        ensures
            r@ == self@,
    {
        match self {
            Payload::Json(v) => Payload::Json(v.clone()),
            Payload::Error { error } => Payload::Error { error: error.clone() },
            Payload::RoomInfo { room_id, mode, connection_count, peers } => {
                let mut copied: Vec<PeerSummary> = Vec::new();
                let mut i: usize = 0;
                while i < peers.len()
                    invariant
                        0 <= i <= peers@.len(),
                        peer_views(copied@) == peer_views(peers@.subrange(0, i as int)),
                    decreases peers@.len() - i,
                {
                    let p = peers[i].duplicate();
                    let ghost before = copied@;
                    copied.push(p);
                    assert(copied@ == before.push(p));
                    assert(peers@.subrange(0, i + 1) =~= peers@.subrange(0, i as int).push(peers@[i as int]));
                    assert(peer_views(before.push(p)) =~= peer_views(before).push(p@));
                    assert(peer_views(peers@.subrange(0, i as int).push(peers@[i as int]))
                        =~= peer_views(peers@.subrange(0, i as int)).push(peers@[i as int]@));
                    i = i + 1;
                }
                assert(peers@.subrange(0, peers@.len() as int) =~= peers@);
                Payload::RoomInfo {
                    room_id: room_id.clone(),
                    mode: mode.clone(),
                    connection_count: *connection_count,
                    peers: copied,
                }
            },
            Payload::NewPeer { connection_id, is_sender, connection_count } => Payload::NewPeer {
                connection_id: connection_id.clone(),
                is_sender: *is_sender,
                connection_count: *connection_count,
            },
            Payload::Leave { connection_id, connection_count } => Payload::Leave {
                connection_id: connection_id.clone(),
                connection_count: *connection_count,
            },
            Payload::InferenceUpdate { source_sender_id, latest } => Payload::InferenceUpdate {
                source_sender_id: source_sender_id.clone(),
                latest: copy_opt_json(latest),
            },
        }
    }
}

/// A copy of an optional payload.
pub fn copy_opt_payload(o: &Option<Payload>) -> (r: Option<Payload>)
    ensures
        opt_payload(r) == opt_payload(*o),
{
    match o {
        Some(p) => Some(p.duplicate()),
        None => None,
    }
}

impl SignalingMessage {
    /// A copy of this envelope.
    pub fn duplicate(&self) -> (r: SignalingMessage)
        ensures
            r@ == self@,
    {
        SignalingMessage {
            message_type: self.message_type,
            connection_id: copy_opt_string(&self.connection_id),
            source_sender_id: copy_opt_string(&self.source_sender_id),
            sender_id: copy_opt_string(&self.sender_id),
            offer_id: copy_opt_string(&self.offer_id),
            data: copy_opt_payload(&self.data),
            is_sender: self.is_sender,
        }
    }

    /// A join request.
    pub fn new_join(connection_id: String, is_sender: bool) -> (r: SignalingMessage)
        ensures
            r@ == (MessageView {
                message_type: SignalingMessageType::Join,
                connection_id: Some(connection_id@),
                source_sender_id: None,
                sender_id: None,
                offer_id: None,
                data: None,
                is_sender: Some(is_sender),
            }),
    {
        SignalingMessage {
            message_type: SignalingMessageType::Join,
            connection_id: Some(connection_id),
            source_sender_id: None,
            sender_id: None,
            offer_id: None,
            data: None,
            is_sender: Some(is_sender),
        }
    }

    /// An offer addressed to `connection_id`, carrying an SDP.
    pub fn new_offer(connection_id: String, sender_id: String, sdp: serde_json::Value) -> (r: SignalingMessage)
        ensures
            r@ == (MessageView {
                message_type: SignalingMessageType::Offer,
                connection_id: Some(connection_id@),
                source_sender_id: None,
                sender_id: Some(sender_id@),
                offer_id: None,
                data: Some(PayloadView::Json(sdp)),
                is_sender: Some(true),
            }),
    {
        SignalingMessage {
            message_type: SignalingMessageType::Offer,
            connection_id: Some(connection_id),
            source_sender_id: None,
            sender_id: Some(sender_id),
            offer_id: None,
            data: Some(Payload::Json(sdp)),
            is_sender: Some(true),
        }
    }

    /// An answer addressed to `connection_id`, carrying an SDP.
    pub fn new_answer(connection_id: String, sender_id: String, sdp: serde_json::Value) -> (r: SignalingMessage)
        ensures
            r@ == (MessageView {
                message_type: SignalingMessageType::Answer,
                connection_id: Some(connection_id@),
                source_sender_id: None,
                sender_id: Some(sender_id@),
                offer_id: None,
                data: Some(PayloadView::Json(sdp)),
                is_sender: Some(false),
            }),
    {
        SignalingMessage {
            message_type: SignalingMessageType::Answer,
            connection_id: Some(connection_id),
            source_sender_id: None,
            sender_id: Some(sender_id),
            offer_id: None,
            data: Some(Payload::Json(sdp)),
            is_sender: Some(false),
        }
    }

    /// An ICE candidate addressed to `connection_id`.
    pub fn new_ice_candidate(connection_id: String, sender_id: String, candidate: serde_json::Value) -> (r: SignalingMessage)
        ensures
            r@ == (MessageView {
                message_type: SignalingMessageType::IceCandidate,
                connection_id: Some(connection_id@),
                source_sender_id: None,
                sender_id: Some(sender_id@),
                offer_id: None,
                data: Some(PayloadView::Json(candidate)),
                is_sender: None,
            }),
    {
        SignalingMessage {
            message_type: SignalingMessageType::IceCandidate,
            connection_id: Some(connection_id),
            source_sender_id: None,
            sender_id: Some(sender_id),
            offer_id: None,
            data: Some(Payload::Json(candidate)),
            is_sender: None,
        }
    }

    /// An error addressed to `connection_id`, whose data is `{"error": error}`.
    pub fn new_error(connection_id: String, error: String) -> (r: SignalingMessage)
        ensures
            r@ == bare_message(SignalingMessageType::Error, connection_id@, PayloadView::Error { error: error@ }),
    {
        SignalingMessage {
            message_type: SignalingMessageType::Error,
            connection_id: Some(connection_id),
            source_sender_id: None,
            sender_id: None,
            offer_id: None,
            data: Some(Payload::Error { error }),
            is_sender: None,
        }
    }
}

/// Placeholder for signaling logic that lives outside the room manager.
pub struct SignalingServer {}

impl SignalingServer {
    pub fn new() -> (r: SignalingServer) {
        SignalingServer {}
    }
}

} // verus!
