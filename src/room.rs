//! Rooms and the room manager: the state machine that tracks connections,
//! cached offers and inference results, and decides which envelopes go to
//! which connection.

use vstd::prelude::*;
use crate::fresh::{new_uuid_string, now_millis};
use crate::signaling::{
    copy_opt_payload, copy_opt_string, copy_string, message_views, opt_payload, opt_str,
    peer_views, sender_exists_reason, MessageView, Payload, PayloadView, PeerSummary, PeerView,
    SignalingMessage, SignalingMessageType,
};

verus! {

/// One connection of a room.
#[derive(Clone, Debug)]
pub struct ConnectionInfo {
    pub id: String,
    pub is_sender: bool,
    /// When the connection joined, in milliseconds since the Unix epoch.
    pub connected_at: i64,
}

/// Model of a connection: what the routing rules read.
pub struct ConnView {
    pub id: Seq<char>,
    pub is_sender: bool,
}

impl View for ConnectionInfo {
    type V = ConnView;

    open spec fn view(&self) -> ConnView {
        ConnView { id: self.id@, is_sender: self.is_sender }
    }
}

/// The models of a list of connections.
pub open spec fn conn_views(s: Seq<ConnectionInfo>) -> Seq<ConnView> {
    s.map_values(|c: ConnectionInfo| c@)
}

/// A room: its connections in the order they joined, and its cached offers.
#[derive(Clone, Debug)]
pub struct Room {
    pub id: String,
    pub connections: Vec<ConnectionInfo>,
    pub offers: Vec<SignalingMessage>,
}

/// Model of a room.
pub struct RoomView {
    pub id: Seq<char>,
    pub connections: Seq<ConnView>,
    pub offers: Seq<MessageView>,
}

impl View for Room {
    type V = RoomView;

    open spec fn view(&self) -> RoomView {
        RoomView {
            id: self.id@,
            connections: conn_views(self.connections@),
            offers: message_views(self.offers@),
        }
    }
}

/// No two connections share an id.
pub open spec fn unique_ids(conns: Seq<ConnView>) -> bool {
    forall|i: int, j: int| 0 <= i < j < conns.len() ==> conns[i].id != conns[j].id
}

/// At most one connection is the sender.
pub open spec fn at_most_one_sender(conns: Seq<ConnView>) -> bool {
    forall|i: int, j: int|
        0 <= i < conns.len() && 0 <= j < conns.len() && conns[i].is_sender && conns[j].is_sender
            ==> i == j
}

/// Every cached offer carries an offer id, and no two share one.
pub open spec fn offers_keyed(offers: Seq<MessageView>) -> bool {
    &&& forall|i: int| 0 <= i < offers.len() ==> (#[trigger] offers[i]).offer_id is Some
    &&& forall|i: int, j: int| 0 <= i < j < offers.len() ==> offers[i].offer_id != offers[j].offer_id
}

/// The invariant of a room.
pub open spec fn room_wf(r: RoomView) -> bool {
    &&& unique_ids(r.connections)
    &&& at_most_one_sender(r.connections)
    &&& offers_keyed(r.offers)
}

/// Some connection is the sender.
pub open spec fn has_sender(conns: Seq<ConnView>) -> bool {
    exists|i: int| 0 <= i < conns.len() && (#[trigger] conns[i]).is_sender
}

/// Some connection has the id `id`.
pub open spec fn has_conn(conns: Seq<ConnView>, id: Seq<char>) -> bool {
    exists|i: int| 0 <= i < conns.len() && (#[trigger] conns[i]).id == id
}

/// The position of the connection with id `id`.
pub open spec fn conn_index(conns: Seq<ConnView>, id: Seq<char>) -> int {
    choose|i: int| 0 <= i < conns.len() && (#[trigger] conns[i]).id == id
}

/// The connections after `id` joins with the given role: an existing entry
/// with that id is replaced in place, otherwise the joiner comes last.
pub open spec fn with_connection(conns: Seq<ConnView>, id: Seq<char>, is_sender: bool) -> Seq<ConnView> {
    let c = ConnView { id: id, is_sender: is_sender };
    if has_conn(conns, id) {
        conns.update(conn_index(conns, id), c)
    } else {
        conns.push(c)
    }
}

/// The connections without the one with id `id`.
pub open spec fn without_connection(conns: Seq<ConnView>, id: Seq<char>) -> Seq<ConnView>
    decreases conns.len(),
{
    if conns.len() == 0 {
        conns
    } else {
        let prev = without_connection(conns.drop_last(), id);
        if conns.last().id == id {
            prev
        } else {
            prev.push(conns.last())
        }
    }
}

/// The offers that `id` did not send.
pub open spec fn purge_offers(offers: Seq<MessageView>, id: Seq<char>) -> Seq<MessageView>
    decreases offers.len(),
{
    if offers.len() == 0 {
        offers
    } else {
        let prev = purge_offers(offers.drop_last(), id);
        if offers.last().sender_id == Some(id) {
            prev
        } else {
            prev.push(offers.last())
        }
    }
}

/// Some cached offer has the offer id `key`.
pub open spec fn has_offer(offers: Seq<MessageView>, key: Option<Seq<char>>) -> bool {
    exists|i: int| 0 <= i < offers.len() && (#[trigger] offers[i]).offer_id == key
}

/// The position of the cached offer with offer id `key`.
pub open spec fn offer_index(offers: Seq<MessageView>, key: Option<Seq<char>>) -> int {
    choose|i: int| 0 <= i < offers.len() && (#[trigger] offers[i]).offer_id == key
}

/// The cache after storing `o`: an offer with the same offer id is replaced
/// in place, otherwise `o` comes last.
pub open spec fn with_offer(offers: Seq<MessageView>, o: MessageView) -> Seq<MessageView> {
    if has_offer(offers, o.offer_id) {
        offers.update(offer_index(offers, o.offer_id), o)
    } else {
        offers.push(o)
    }
}

/// An outbound envelope with no target yet and every optional field absent
/// but the data.
pub open spec fn template(kind: SignalingMessageType, data: PayloadView) -> MessageView {
    MessageView {
        message_type: kind,
        connection_id: None,
        source_sender_id: None,
        sender_id: None,
        offer_id: None,
        data: Some(data),
        is_sender: None,
    }
}

/// `t` addressed to `to`.
pub open spec fn readdressed(t: MessageView, to: Seq<char>) -> MessageView {
    MessageView {
        message_type: t.message_type,
        connection_id: Some(to),
        source_sender_id: t.source_sender_id,
        sender_id: t.sender_id,
        offer_id: t.offer_id,
        data: t.data,
        is_sender: t.is_sender,
    }
}

/// Whether a fan-out reaches connection `c`: only viewers when `viewers_only`,
/// and never the connection named by `skip`.
pub open spec fn reached(c: ConnView, viewers_only: bool, skip: Option<Seq<char>>) -> bool {
    (!viewers_only || !c.is_sender) && skip != Some(c.id)
}

/// One copy of `t` for each connection that the fan-out reaches, addressed to
/// it, in connection order.
pub open spec fn fan_out(conns: Seq<ConnView>, t: MessageView, viewers_only: bool, skip: Option<Seq<char>>) -> Seq<MessageView>
    decreases conns.len(),
{
    if conns.len() == 0 {
        Seq::empty()
    } else {
        let prev = fan_out(conns.drop_last(), t, viewers_only, skip);
        if reached(conns.last(), viewers_only, skip) {
            prev.push(readdressed(t, conns.last().id))
        } else {
            prev
        }
    }
}

/// The peer list that a joiner `id` is shown: every other connection, in order.
pub open spec fn peers_except(conns: Seq<ConnView>, id: Seq<char>) -> Seq<PeerView>
    decreases conns.len(),
{
    if conns.len() == 0 {
        Seq::empty()
    } else {
        let prev = peers_except(conns.drop_last(), id);
        if conns.last().id == id {
            prev
        } else {
            prev.push(PeerView { id: conns.last().id, is_sender: conns.last().is_sender })
        }
    }
}

/// A cached offer as replayed to a joining viewer `to`.
pub open spec fn replayed_offer(o: MessageView, to: Seq<char>) -> MessageView {
    MessageView {
        message_type: SignalingMessageType::Offer,
        connection_id: Some(to),
        source_sender_id: None,
        sender_id: o.sender_id,
        offer_id: o.offer_id,
        data: o.data,
        is_sender: None,
    }
}

/// Every cached offer, in cache order, replayed to `to`.
pub open spec fn replay_offers(offers: Seq<MessageView>, to: Seq<char>) -> Seq<MessageView> {
    offers.map_values(|o: MessageView| replayed_offer(o, to))
}

/// The outcome of `id` joining room `r` with the given role: the new room and
/// the envelopes to deliver.
pub open spec fn join_outcome(r: RoomView, id: Seq<char>, is_sender: bool) -> (RoomView, Seq<MessageView>) {
    if is_sender && has_sender(r.connections) {
        (r, seq![readdressed(template(SignalingMessageType::Error, PayloadView::Error { error: sender_exists_reason() }), id)])
    } else {
        let conns = with_connection(r.connections, id, is_sender);
        let count = conns.len() as usize;
        let info = template(SignalingMessageType::RoomInfo, PayloadView::RoomInfo {
            room_id: r.id,
            mode: "1onN"@,
            connection_count: count,
            peers: peers_except(conns, id),
        });
        let note = template(SignalingMessageType::NewPeer, PayloadView::NewPeer {
            connection_id: id,
            is_sender: is_sender,
            connection_count: count,
        });
        let replay = if is_sender { Seq::empty() } else { replay_offers(r.offers, id) };
        (
            RoomView { id: r.id, connections: conns, offers: r.offers },
            seq![readdressed(info, id)] + fan_out(conns, note, false, Some(id)) + replay,
        )
    }
}

/// The offer `msg` as cached under the offer id `key`.
pub open spec fn keyed_offer(msg: MessageView, key: Seq<char>) -> MessageView {
    MessageView {
        message_type: msg.message_type,
        connection_id: msg.connection_id,
        source_sender_id: msg.source_sender_id,
        sender_id: msg.sender_id,
        offer_id: Some(key),
        data: msg.data,
        is_sender: msg.is_sender,
    }
}

/// The outcome of a broadcast offer `msg` in room `r`, minted the offer id
/// `key`: the offer is cached, and every viewer gets a copy.
pub open spec fn broadcast_outcome(r: RoomView, msg: MessageView, key: Seq<char>) -> (RoomView, Seq<MessageView>) {
    let t = MessageView {
        message_type: SignalingMessageType::Offer,
        connection_id: None,
        source_sender_id: None,
        sender_id: msg.sender_id,
        offer_id: Some(key),
        data: msg.data,
        is_sender: None,
    };
    (
        RoomView { id: r.id, connections: r.connections, offers: with_offer(r.offers, keyed_offer(msg, key)) },
        fan_out(r.connections, t, true, None),
    )
}

/// The room after connection `id` leaves: its entry is gone and so are the
/// offers it sent.
pub open spec fn leave_room(r: RoomView, id: Seq<char>) -> RoomView {
    RoomView {
        id: r.id,
        connections: without_connection(r.connections, id),
        offers: purge_offers(r.offers, id),
    }
}

/// The `leave` notices sent when `id` has left, giving room `r`.
pub open spec fn leave_notices(r: RoomView, id: Seq<char>) -> Seq<MessageView> {
    fan_out(
        r.connections,
        template(SignalingMessageType::Leave, PayloadView::Leave {
            connection_id: id,
            connection_count: r.connections.len() as usize,
        }),
        false,
        None,
    )
}

/// `t` addressed to `to`.
pub fn readdress(t: &SignalingMessage, to: &String) -> (r: SignalingMessage)
    ensures
        r@ == readdressed(t@, to@),
{
    let mut m = t.duplicate();
    m.connection_id = Some(copy_string(to));
    m
}

/// An envelope of kind `kind` with the given data, no target and no other field.
pub fn make_template(kind: SignalingMessageType, data: Payload) -> (r: SignalingMessage)
    ensures
        r@ == template(kind, data@),
{
    SignalingMessage {
        message_type: kind,
        connection_id: None,
        source_sender_id: None,
        sender_id: None,
        offer_id: None,
        data: Some(data),
        is_sender: None,
    }
}

/// Appends one copy of `t` for each connection that the fan-out reaches.
pub fn push_fan_out(
    out: &mut Vec<SignalingMessage>,
    conns: &Vec<ConnectionInfo>,
    t: &SignalingMessage,
    viewers_only: bool,
    skip: &Option<String>,
)
    ensures
        message_views(final(out)@) == message_views(old(out)@) + fan_out(conn_views(conns@), t@, viewers_only, opt_str(*skip)),
{
    let ghost base = message_views(out@);
    let mut i: usize = 0;
    while i < conns.len()
        invariant
            0 <= i <= conns@.len(),
            message_views(out@) == base + fan_out(conn_views(conns@.subrange(0, i as int)), t@, viewers_only, opt_str(*skip)),
        decreases conns@.len() - i,
    {
        let ghost pre = conns@.subrange(0, i as int);
        let ghost next = conns@.subrange(0, i + 1);
        assert(conn_views(next).drop_last() =~= conn_views(pre));
        assert(conn_views(next).last() == conns@[i as int]@);
        let c = &conns[i];
        let hit = (!viewers_only || !c.is_sender) && match skip {
            Some(s) => c.id != *s,
            None => true,
        };
        if hit {
            let m = readdress(t, &c.id);
            let ghost before = out@;
            out.push(m);
            assert(message_views(before.push(m)) =~= message_views(before).push(m@));
        }
        i = i + 1;
    }
    assert(conns@.subrange(0, conns@.len() as int) =~= conns@);
}

/// A join that is not a second sender keeps ids unique and senders at most one.
pub proof fn lemma_with_connection(conns: Seq<ConnView>, id: Seq<char>, is_sender: bool)
    requires
        unique_ids(conns),
        at_most_one_sender(conns),
        !(is_sender && has_sender(conns)),
    ensures
        unique_ids(with_connection(conns, id, is_sender)),
        at_most_one_sender(with_connection(conns, id, is_sender)),
{
    let w = with_connection(conns, id, is_sender);
    if has_conn(conns, id) {
        let k = conn_index(conns, id);
        assert forall|a: int, b: int| 0 <= a < b < w.len() implies w[a].id != w[b].id by {
            if a != k && b != k {
                assert(conns[a].id != conns[b].id);
            }
        }
    } else {
        assert forall|a: int, b: int| 0 <= a < b < w.len() implies w[a].id != w[b].id by {
            if b == conns.len() {
                assert(conns[a].id != id);
            }
        }
    }
    assert forall|a: int, b: int|
        0 <= a < w.len() && 0 <= b < w.len() && w[a].is_sender && w[b].is_sender implies a == b by {
        if is_sender {
            assert(!conns[a].is_sender || !(0 <= a < conns.len()));
            assert(!conns[b].is_sender || !(0 <= b < conns.len()));
        }
    }
}

/// Dropping a connection keeps the room's connection invariants, and leaves no
/// connection with that id.
pub proof fn lemma_without_connection(conns: Seq<ConnView>, id: Seq<char>)
    requires
        unique_ids(conns),
        at_most_one_sender(conns),
    ensures
        unique_ids(without_connection(conns, id)),
        at_most_one_sender(without_connection(conns, id)),
        !has_conn(without_connection(conns, id), id),
        forall|k: int| 0 <= k < without_connection(conns, id).len() ==>
            exists|j: int| 0 <= j < conns.len() && #[trigger] without_connection(conns, id)[k] == conns[j],
    decreases conns.len(),
{
    if conns.len() > 0 {
        let init = conns.drop_last();
        lemma_without_connection(init, id);
        let prev = without_connection(init, id);
        let last = conns.last();
        let w = without_connection(conns, id);
        assert forall|k: int| 0 <= k < prev.len() implies exists|j: int| 0 <= j < conns.len() && #[trigger] prev[k] == conns[j] by {
            let j = choose|j: int| 0 <= j < init.len() && prev[k] == init[j];
            assert(prev[k] == conns[j]);
        }
        if last.id != id {
            assert forall|k: int| 0 <= k < prev.len() implies (#[trigger] prev[k]).id != last.id by {
                let j = choose|j: int| 0 <= j < init.len() && prev[k] == init[j];
                assert(init[j] == conns[j]);
                assert(conns[j].id != conns[conns.len() - 1].id);
            }
            assert forall|a: int, b: int|
                0 <= a < w.len() && 0 <= b < w.len() && w[a].is_sender && w[b].is_sender implies a == b by {
                if a < prev.len() && b == prev.len() {
                    let j = choose|j: int| 0 <= j < init.len() && prev[a] == init[j];
                    assert(conns[j].is_sender && conns[conns.len() - 1].is_sender);
                }
                if b < prev.len() && a == prev.len() {
                    let j = choose|j: int| 0 <= j < init.len() && prev[b] == init[j];
                    assert(conns[j].is_sender && conns[conns.len() - 1].is_sender);
                }
            }
            assert forall|k: int| 0 <= k < w.len() implies exists|j: int| 0 <= j < conns.len() && #[trigger] w[k] == conns[j] by {
                if k == prev.len() {
                    assert(w[k] == conns[conns.len() - 1]);
                } else {
                    assert(w[k] == prev[k]);
                }
            }
        }
    }
}

/// Purging the offers of `id` keeps the cache keyed and leaves none sent by `id`.
pub proof fn lemma_purge_offers(offers: Seq<MessageView>, id: Seq<char>)
    requires
        offers_keyed(offers),
    ensures
        offers_keyed(purge_offers(offers, id)),
        forall|k: int| 0 <= k < purge_offers(offers, id).len() ==>
            (#[trigger] purge_offers(offers, id)[k]).sender_id != Some(id),
        forall|k: int| 0 <= k < purge_offers(offers, id).len() ==>
            exists|j: int| 0 <= j < offers.len() && #[trigger] purge_offers(offers, id)[k] == offers[j],
    decreases offers.len(),
{
    if offers.len() > 0 {
        let init = offers.drop_last();
        lemma_purge_offers(init, id);
        let prev = purge_offers(init, id);
        let last = offers.last();
        let w = purge_offers(offers, id);
        assert forall|k: int| 0 <= k < prev.len() implies exists|j: int| 0 <= j < offers.len() && #[trigger] prev[k] == offers[j] by {
            let j = choose|j: int| 0 <= j < init.len() && prev[k] == init[j];
            assert(prev[k] == offers[j]);
        }
        if last.sender_id != Some(id) {
            assert forall|k: int| 0 <= k < prev.len() implies (#[trigger] prev[k]).offer_id != last.offer_id by {
                let j = choose|j: int| 0 <= j < init.len() && prev[k] == init[j];
                assert(init[j] == offers[j]);
                assert(offers[j].offer_id != offers[offers.len() - 1].offer_id);
            }
            assert forall|k: int| 0 <= k < w.len() implies exists|j: int| 0 <= j < offers.len() && #[trigger] w[k] == offers[j] by {
                if k == prev.len() {
                    assert(w[k] == offers[offers.len() - 1]);
                } else {
                    assert(w[k] == prev[k]);
                }
            }
            assert(offers_keyed(w)) by {
                assert forall|i: int| 0 <= i < w.len() implies (#[trigger] w[i]).offer_id is Some by {
                    if i < prev.len() { assert(w[i] == prev[i]); }
                }
                assert forall|a: int, b: int| 0 <= a < b < w.len() implies w[a].offer_id != w[b].offer_id by {
                    if b == prev.len() { assert(w[a] == prev[a]); } else { assert(w[a] == prev[a] && w[b] == prev[b]); }
                }
            }
        }
    }
}

/// Storing an offer with an offer id keeps the cache keyed.
pub proof fn lemma_with_offer(offers: Seq<MessageView>, o: MessageView)
    requires
        offers_keyed(offers),
        o.offer_id is Some,
    ensures
        offers_keyed(with_offer(offers, o)),
{
    let w = with_offer(offers, o);
    if has_offer(offers, o.offer_id) {
        let k = offer_index(offers, o.offer_id);
        assert forall|a: int, b: int| 0 <= a < b < w.len() implies w[a].offer_id != w[b].offer_id by {
            assert(offers[a].offer_id != offers[b].offer_id);
        }
    } else {
        assert forall|a: int, b: int| 0 <= a < b < w.len() implies w[a].offer_id != w[b].offer_id by {
            if b == offers.len() {
                assert(offers[a].offer_id != o.offer_id);
            }
        }
    }
}

/// Appends the peer list that joiner `id` is shown.
fn peer_list(conns: &Vec<ConnectionInfo>, id: &String) -> (r: Vec<PeerSummary>)
    ensures
        peer_views(r@) == peers_except(conn_views(conns@), id@),
{
    let mut out: Vec<PeerSummary> = Vec::new();
    let mut i: usize = 0;
    while i < conns.len()
        invariant
            0 <= i <= conns@.len(),
            peer_views(out@) == peers_except(conn_views(conns@.subrange(0, i as int)), id@),
        decreases conns@.len() - i,
    {
        let ghost pre = conns@.subrange(0, i as int);
        let ghost next = conns@.subrange(0, i + 1);
        assert(conn_views(next).drop_last() =~= conn_views(pre));
        assert(conn_views(next).last() == conns@[i as int]@);
        if conns[i].id != *id {
            let p = PeerSummary { id: copy_string(&conns[i].id), is_sender: conns[i].is_sender };
            let ghost before = out@;
            out.push(p);
            assert(peer_views(before.push(p)) =~= peer_views(before).push(p@));
        }
        i = i + 1;
    }
    assert(conns@.subrange(0, conns@.len() as int) =~= conns@);
    out
}

/// Appends every cached offer, in cache order, replayed to `to`.
pub fn push_replay(out: &mut Vec<SignalingMessage>, offers: &Vec<SignalingMessage>, to: &String)
    ensures
        message_views(final(out)@) == message_views(old(out)@) + replay_offers(message_views(offers@), to@),
{
    let ghost base = message_views(out@);
    let ghost all = message_views(offers@);
    let mut i: usize = 0;
    while i < offers.len()
        invariant
            0 <= i <= offers@.len(),
            all == message_views(offers@),
            message_views(out@) == base + replay_offers(all.subrange(0, i as int), to@),
        decreases offers@.len() - i,
    {
        let o = &offers[i];
        let m = SignalingMessage {
            message_type: SignalingMessageType::Offer,
            connection_id: Some(copy_string(to)),
            source_sender_id: None,
            sender_id: copy_opt_string(&o.sender_id),
            offer_id: copy_opt_string(&o.offer_id),
            data: copy_opt_payload(&o.data),
            is_sender: None,
        };
        assert(m@ == replayed_offer(all[i as int], to@));
        let ghost before = out@;
        out.push(m);
        assert(message_views(before.push(m)) =~= message_views(before).push(m@));
        assert(replay_offers(all.subrange(0, i + 1), to@) =~= replay_offers(all.subrange(0, i as int), to@).push(m@));
        i = i + 1;
    }
    assert(all.subrange(0, offers@.len() as int) =~= all);
}

impl Room {
    /// The invariant of a room.
    pub open spec fn wf(&self) -> bool {
        room_wf(self@)
    }

    /// An empty room.
    pub fn new(id: String) -> (r: Room)
        ensures
            r@ == (RoomView { id: id@, connections: Seq::empty(), offers: Seq::empty() }),
            r.wf(),
    {
        let r = Room { id, connections: Vec::new(), offers: Vec::new() };
        assert(conn_views(r.connections@) =~= Seq::empty());
        assert(message_views(r.offers@) =~= Seq::empty());
        r
    }

    /// The position of the connection with id `id`, if there is one.
    pub fn find_connection(&self, id: &String) -> (r: Option<usize>)
        requires
            self.wf(),
        ensures
            r is None <==> !has_conn(self@.connections, id@),
            r matches Some(i) ==> i == conn_index(self@.connections, id@) && i < self.connections@.len(),
    {
        let ghost v = self@.connections;
        let mut i: usize = 0;
        while i < self.connections.len()
            invariant
                0 <= i <= self.connections@.len(),
                v == conn_views(self.connections@),
                unique_ids(v),
                forall|j: int| 0 <= j < i ==> (#[trigger] v[j]).id != id@,
            decreases self.connections@.len() - i,
        {
            if self.connections[i].id == *id {
                proof {
                    assert(v[i as int].id == id@);
                    let k = conn_index(v, id@);
                    assert(v[k].id == id@);
                    assert(k == i);
                }
                return Some(i);
            }
            i = i + 1;
        }
        None
    }

    /// Whether some connection is the sender.
    pub fn sender_present(&self) -> (r: bool)
        ensures
            r == has_sender(self@.connections),
    {
        let ghost v = self@.connections;
        let mut i: usize = 0;
        while i < self.connections.len()
            invariant
                0 <= i <= self.connections@.len(),
                v == conn_views(self.connections@),
                forall|j: int| 0 <= j < i ==> !(#[trigger] v[j]).is_sender,
            decreases self.connections@.len() - i,
        {
            if self.connections[i].is_sender {
                assert(v[i as int].is_sender);
                return true;
            }
            i = i + 1;
        }
        false
    }

    /// Adds a connection with the given role; a connection with the same id is
    /// replaced. A second sender is refused with "Sender already exists in
    /// this room" and the room is left as it was. On success the list of
    /// connections that the join displaced is returned, which is always empty.
    pub fn add_connection(&mut self, connection_id: String, is_sender: bool) -> (r: Result<Vec<String>, String>)
        requires
            old(self).wf(),
        ensures
            final(self).wf(),
            r is Err <==> is_sender && has_sender(old(self)@.connections),
            r matches Err(e) ==> e@ == sender_exists_reason() && final(self)@ == old(self)@,
            r matches Ok(v) ==> v@.len() == 0 && final(self)@ == (RoomView {
                id: old(self)@.id,
                connections: with_connection(old(self)@.connections, connection_id@, is_sender),
                offers: old(self)@.offers,
            }),
    {
        if is_sender && self.sender_present() {
            return Err("Sender already exists in this room".to_owned());
        }
        let ghost v = self@.connections;
        let info = ConnectionInfo { id: copy_string(&connection_id), is_sender, connected_at: now_millis() };
        match self.find_connection(&connection_id) {
            Some(i) => {
                self.connections.set(i, info);
                assert(conn_views(self.connections@) =~= v.update(i as int, info@));
            },
            None => {
                self.connections.push(info);
                assert(conn_views(self.connections@) =~= v.push(info@));
            },
        }
        proof {
            lemma_with_connection(v, connection_id@, is_sender);
        }
        Ok(Vec::new())
    }

    /// Removes the connection `connection_id` and the offers it sent.
    pub fn remove_connection(&mut self, connection_id: &str)
        requires
            old(self).wf(),
        ensures
            final(self).wf(),
            final(self)@ == leave_room(old(self)@, connection_id@),
    {
        let id = connection_id.to_owned();
        let ghost cv = self@.connections;
        let ghost ov = self@.offers;
        let mut kept: Vec<ConnectionInfo> = Vec::new();
        let mut i: usize = 0;
        while i < self.connections.len()
            invariant
                0 <= i <= self.connections@.len(),
                cv == conn_views(self.connections@),
                id@ == connection_id@,
                conn_views(kept@) == without_connection(conn_views(self.connections@.subrange(0, i as int)), id@),
            decreases self.connections@.len() - i,
        {
            let ghost pre = self.connections@.subrange(0, i as int);
            let ghost next = self.connections@.subrange(0, i + 1);
            assert(conn_views(next).drop_last() =~= conn_views(pre));
            assert(conn_views(next).last() == self.connections@[i as int]@);
            if self.connections[i].id != id {
                let c = ConnectionInfo {
                    id: copy_string(&self.connections[i].id),
                    is_sender: self.connections[i].is_sender,
                    connected_at: self.connections[i].connected_at,
                };
                let ghost before = kept@;
                kept.push(c);
                assert(conn_views(before.push(c)) =~= conn_views(before).push(c@));
            }
            i = i + 1;
        }
        assert(self.connections@.subrange(0, self.connections@.len() as int) =~= self.connections@);
        let mut remaining: Vec<SignalingMessage> = Vec::new();
        let mut j: usize = 0;
        while j < self.offers.len()
            invariant
                0 <= j <= self.offers@.len(),
                ov == message_views(self.offers@),
                id@ == connection_id@,
                message_views(remaining@) == purge_offers(message_views(self.offers@.subrange(0, j as int)), id@),
            decreases self.offers@.len() - j,
        {
            let ghost pre = self.offers@.subrange(0, j as int);
            let ghost next = self.offers@.subrange(0, j + 1);
            assert(message_views(next).drop_last() =~= message_views(pre));
            assert(message_views(next).last() == self.offers@[j as int]@);
            let from_leaver = match &self.offers[j].sender_id {
                Some(s) => *s == id,
                None => false,
            };
            if !from_leaver {
                let o = self.offers[j].duplicate();
                let ghost before = remaining@;
                remaining.push(o);
                assert(message_views(before.push(o)) =~= message_views(before).push(o@));
            }
            j = j + 1;
        }
        assert(self.offers@.subrange(0, self.offers@.len() as int) =~= self.offers@);
        self.connections = kept;
        self.offers = remaining;
        proof {
            lemma_without_connection(cv, connection_id@);
            lemma_purge_offers(ov, connection_id@);
        }
    }

    /// The position of the cached offer with offer id `key`, if there is one.
    pub fn find_offer(&self, key: &String) -> (r: Option<usize>)
        requires
            self.wf(),
        ensures
            r is None <==> !has_offer(self@.offers, Some(key@)),
            r matches Some(i) ==> i == offer_index(self@.offers, Some(key@)) && i < self.offers@.len(),
    {
        let ghost v = self@.offers;
        let mut i: usize = 0;
        while i < self.offers.len()
            invariant
                0 <= i <= self.offers@.len(),
                v == message_views(self.offers@),
                offers_keyed(v),
                forall|j: int| 0 <= j < i ==> (#[trigger] v[j]).offer_id != Some(key@),
            decreases self.offers@.len() - i,
        {
            let same = match &self.offers[i].offer_id {
                Some(k) => *k == *key,
                None => false,
            };
            if same {
                proof {
                    assert(v[i as int].offer_id == Some(key@));
                    let k = offer_index(v, Some(key@));
                    assert(v[k].offer_id == Some(key@));
                    assert(k == i);
                }
                return Some(i);
            }
            i = i + 1;
        }
        None
    }

    /// Caches `offer` under the offer id `offer_id`, replacing an offer cached
    /// under the same id.
    pub fn add_offer_with_id(&mut self, offer: SignalingMessage, offer_id: String)
        requires
            old(self).wf(),
        ensures
            final(self).wf(),
            final(self)@ == (RoomView {
                id: old(self)@.id,
                connections: old(self)@.connections,
                offers: with_offer(old(self)@.offers, keyed_offer(offer@, offer_id@)),
            }),
    {
        let ghost v = self@.offers;
        let mut keyed = offer;
        keyed.offer_id = Some(copy_string(&offer_id));
        assert(keyed@ == keyed_offer(offer@, offer_id@));
        match self.find_offer(&offer_id) {
            Some(i) => {
                self.offers.set(i, keyed);
                assert(message_views(self.offers@) =~= v.update(i as int, keyed@));
            },
            None => {
                self.offers.push(keyed);
                assert(message_views(self.offers@) =~= v.push(keyed@));
            },
        }
        proof {
            lemma_with_offer(v, keyed@);
        }
    }

    /// Caches `offer` under a freshly minted offer id.
    pub fn add_offer(&mut self, offer: SignalingMessage) -> (r: Result<(), String>)
        requires
            old(self).wf(),
        ensures
            final(self).wf(),
            r is Ok,
            exists|key: Seq<char>| final(self)@ == (RoomView {
                id: old(self)@.id,
                connections: old(self)@.connections,
                offers: with_offer(old(self)@.offers, keyed_offer(offer@, key)),
            }),
    {
        let offer_id = new_uuid_string();
        self.add_offer_with_id(offer, offer_id);
        Ok(())
    }

    /// The cached offers, in cache order.
    pub fn get_offers_for_viewer(&self) -> (r: Vec<&SignalingMessage>)
        ensures
            r@.len() == self.offers@.len(),
            forall|i: int| 0 <= i < r@.len() ==> *r@[i] == self.offers@[i],
    {
        let mut out: Vec<&SignalingMessage> = Vec::new();
        let mut i: usize = 0;
        while i < self.offers.len()
            invariant
                0 <= i <= self.offers@.len(),
                out@.len() == i,
                forall|j: int| 0 <= j < i ==> *out@[j] == self.offers@[j],
            decreases self.offers@.len() - i,
        {
            out.push(&self.offers[i]);
            i = i + 1;
        }
        out
    }


    /// Lets `connection_id` join with the given role, and returns the envelopes
    /// to deliver: a refusal to a second sender; otherwise the room info to the
    /// joiner, a new-peer notice to every other connection, and to a joining
    /// viewer every cached offer.
    pub fn join(&mut self, connection_id: &String, is_sender: bool) -> (r: Vec<SignalingMessage>)
        requires
            old(self).wf(),
        ensures
            final(self).wf(),
            (final(self)@, message_views(r@)) == join_outcome(old(self)@, connection_id@, is_sender),
    {
        match self.add_connection(copy_string(connection_id), is_sender) {
            Err(e) => {
                let refusal = SignalingMessage {
                    message_type: SignalingMessageType::Error,
                    connection_id: Some(copy_string(connection_id)),
                    source_sender_id: None,
                    sender_id: None,
                    offer_id: None,
                    data: Some(Payload::Error { error: e }),
                    is_sender: None,
                };
                let out = vec![refusal];
                assert(message_views(out@) =~= seq![refusal@]);
                return out;
            },
            Ok(_) => {},
        }
        let count = self.connections.len();
        let peers = peer_list(&self.connections, connection_id);
        let info = SignalingMessage {
            message_type: SignalingMessageType::RoomInfo,
            connection_id: Some(copy_string(connection_id)),
            source_sender_id: None,
            sender_id: None,
            offer_id: None,
            data: Some(Payload::RoomInfo {
                room_id: copy_string(&self.id),
                mode: "1onN".to_owned(),
                connection_count: count,
                peers,
            }),
            is_sender: None,
        };
        let mut out = vec![info];
        assert(message_views(out@) =~= seq![info@]);
        let note = make_template(SignalingMessageType::NewPeer, Payload::NewPeer {
            connection_id: copy_string(connection_id),
            is_sender,
            connection_count: count,
        });
        push_fan_out(&mut out, &self.connections, &note, false, &Some(copy_string(connection_id)));
        if !is_sender {
            push_replay(&mut out, &self.offers, connection_id);
        } else {
            assert(message_views(out@) =~= message_views(out@) + Seq::<MessageView>::empty());
        }
        out
    }

    /// Caches the broadcast offer `msg` under `offer_id` and returns one copy
    /// of it for every viewer.
    pub fn broadcast_offer(&mut self, msg: SignalingMessage, offer_id: String) -> (r: Vec<SignalingMessage>)
        requires
            old(self).wf(),
        ensures
            final(self).wf(),
            (final(self)@, message_views(r@)) == broadcast_outcome(old(self)@, msg@, offer_id@),
    {
        let copy = SignalingMessage {
            message_type: SignalingMessageType::Offer,
            connection_id: None,
            source_sender_id: None,
            sender_id: copy_opt_string(&msg.sender_id),
            offer_id: Some(copy_string(&offer_id)),
            data: copy_opt_payload(&msg.data),
            is_sender: None,
        };
        self.add_offer_with_id(msg, offer_id);
        let mut out: Vec<SignalingMessage> = Vec::new();
        assert(message_views(out@) =~= Seq::<MessageView>::empty());
        push_fan_out(&mut out, &self.connections, &copy, true, &None);
        assert(message_views(out@) =~= fan_out(self@.connections, copy@, true, None));
        out
    }

    /// The number of connections.
    pub fn get_connection_count(&self) -> (r: usize)
        ensures
            r == self@.connections.len(),
    {
        self.connections.len()
    }
}

/// A stored inference result: the latest payload that a source produced in a room.
#[derive(Clone, Debug)]
pub struct InferenceRecord {
    pub room_id: String,
    pub source_sender_id: String,
    pub payload: serde_json::Value,
}

/// Model of an inference record.
pub struct RecordView {
    pub room_id: Seq<char>,
    pub source_sender_id: Seq<char>,
    pub payload: serde_json::Value,
}

impl View for InferenceRecord {
    type V = RecordView;

    open spec fn view(&self) -> RecordView {
        RecordView { room_id: self.room_id@, source_sender_id: self.source_sender_id@, payload: self.payload }
    }
}

/// The models of a list of inference records.
pub open spec fn record_views(s: Seq<InferenceRecord>) -> Seq<RecordView> {
    s.map_values(|r: InferenceRecord| r@)
}

/// The models of a list of rooms.
pub open spec fn room_views(s: Seq<Room>) -> Seq<RoomView> {
    s.map_values(|r: Room| r@)
}

/// The room manager: every room, the latest inference result of each source
/// in each room, and the inference results still to be handed to the
/// persistence sink, oldest first.
#[derive(Debug)]
pub struct RoomManager {
    pub rooms: Vec<Room>,
    pub inference_db: Vec<InferenceRecord>,
    pub pending_persistence: Vec<InferenceRecord>,
}

/// Model of the room manager.
pub struct ManagerView {
    pub rooms: Seq<RoomView>,
    pub inference: Seq<RecordView>,
    pub persistence: Seq<RecordView>,
}

impl View for RoomManager {
    type V = ManagerView;

    open spec fn view(&self) -> ManagerView {
        ManagerView {
            rooms: room_views(self.rooms@),
            inference: record_views(self.inference_db@),
            persistence: record_views(self.pending_persistence@),
        }
    }
}

/// Whether two inference records are for the same room and source.
pub open spec fn same_key(a: RecordView, b: RecordView) -> bool {
    a.room_id == b.room_id && a.source_sender_id == b.source_sender_id
}

/// The invariant of the room manager: room ids are unique, every room keeps
/// its own invariant, and the store holds one record per room and source.
pub open spec fn manager_wf(m: ManagerView) -> bool {
    &&& forall|i: int, j: int| 0 <= i < j < m.rooms.len() ==> m.rooms[i].id != m.rooms[j].id
    &&& forall|i: int| 0 <= i < m.rooms.len() ==> room_wf(#[trigger] m.rooms[i])
    &&& forall|i: int, j: int| 0 <= i < j < m.inference.len() ==> !same_key(m.inference[i], m.inference[j])
}

/// Some room has the id `id`.
pub open spec fn has_room(rooms: Seq<RoomView>, id: Seq<char>) -> bool {
    exists|i: int| 0 <= i < rooms.len() && (#[trigger] rooms[i]).id == id
}

/// The position of the room with id `id`.
pub open spec fn room_index(rooms: Seq<RoomView>, id: Seq<char>) -> int {
    choose|i: int| 0 <= i < rooms.len() && (#[trigger] rooms[i]).id == id
}

/// A record for room `room_id` and source `source`.
pub open spec fn key_of(room_id: Seq<char>, source: Seq<char>, payload: serde_json::Value) -> RecordView {
    RecordView { room_id: room_id, source_sender_id: source, payload: payload }
}

/// Some record is for room `room_id` and source `source`.
pub open spec fn has_record(inf: Seq<RecordView>, room_id: Seq<char>, source: Seq<char>) -> bool {
    exists|i: int| 0 <= i < inf.len() && (#[trigger] inf[i]).room_id == room_id && inf[i].source_sender_id == source
}

/// The position of the record for room `room_id` and source `source`.
pub open spec fn record_index(inf: Seq<RecordView>, room_id: Seq<char>, source: Seq<char>) -> int {
    choose|i: int| 0 <= i < inf.len() && (#[trigger] inf[i]).room_id == room_id && inf[i].source_sender_id == source
}

/// The latest payload stored for source `source` in room `room_id`.
pub open spec fn lookup_inference(inf: Seq<RecordView>, room_id: Seq<char>, source: Seq<char>) -> Option<serde_json::Value> {
    if has_record(inf, room_id, source) {
        Some(inf[record_index(inf, room_id, source)].payload)
    } else {
        None
    }
}

/// The store after recording `r`, which overwrites the record with the same
/// room and source.
pub open spec fn with_record(inf: Seq<RecordView>, r: RecordView) -> Seq<RecordView> {
    if has_record(inf, r.room_id, r.source_sender_id) {
        inf.update(record_index(inf, r.room_id, r.source_sender_id), r)
    } else {
        inf.push(r)
    }
}

/// The manager with room `k` replaced by `r`.
pub open spec fn with_room(m: ManagerView, k: int, r: RoomView) -> ManagerView {
    ManagerView { rooms: m.rooms.update(k, r), inference: m.inference, persistence: m.persistence }
}

/// The outcome of an inference result for source `source` in room `k`,
/// carrying `data`: JSON data is stored, overwriting the previous result of
/// that source, and queued for the persistence sink; every connection gets
/// the latest result of that source.
pub open spec fn inference_outcome(m: ManagerView, k: int, room_id: Seq<char>, source: Seq<char>, data: Option<PayloadView>) -> (ManagerView, Seq<MessageView>) {
    let (next, latest) = match data {
        Some(PayloadView::Json(v)) => {
            let rec = key_of(room_id, source, v);
            (ManagerView { rooms: m.rooms, inference: with_record(m.inference, rec), persistence: m.persistence.push(rec) }, Some(v))
        },
        _ => (m, lookup_inference(m.inference, room_id, source)),
    };
    let t = template(SignalingMessageType::InferenceUpdate, PayloadView::InferenceUpdate {
        source_sender_id: source,
        latest: latest,
    });
    (next, fan_out(m.rooms[k].connections, t, false, None))
}

/// The outcome of envelope `msg` arriving for room `room_id`, where `key` is
/// the offer id that a broadcast offer is given: the next state and the
/// envelopes to deliver, or `None` when nothing is to be delivered because
/// the room does not exist, a required field is missing, or the kind is not
/// one that the manager answers.
pub open spec fn handle_outcome(m: ManagerView, room_id: Seq<char>, msg: MessageView, key: Seq<char>) -> (ManagerView, Option<Seq<MessageView>>) {
    if !has_room(m.rooms, room_id) {
        (m, None)
    } else {
        let k = room_index(m.rooms, room_id);
        let r = m.rooms[k];
        match msg.message_type {
            SignalingMessageType::Join => match (msg.connection_id, msg.is_sender) {
                (Some(id), Some(is_sender)) => {
                    let (r2, out) = join_outcome(r, id, is_sender);
                    (with_room(m, k, r2), Some(out))
                },
                _ => (m, None),
            },
            SignalingMessageType::Offer => {
                if msg.connection_id is Some {
                    (m, Some(seq![msg]))
                } else {
                    let (r2, out) = broadcast_outcome(r, msg, key);
                    (with_room(m, k, r2), Some(out))
                }
            },
            SignalingMessageType::Answer => (m, Some(seq![msg])),
            SignalingMessageType::IceCandidate => {
                if msg.connection_id is Some {
                    (m, Some(seq![msg]))
                } else {
                    (m, Some(fan_out(r.connections, msg, true, None)))
                }
            },
            SignalingMessageType::InferenceResult => match msg.source_sender_id {
                Some(source) => {
                    let (m2, out) = inference_outcome(m, k, room_id, source, msg.data);
                    (m2, Some(out))
                },
                None => (m, None),
            },
            _ => (m, None),
        }
    }
}

/// The outcome of connection `id` leaving room `room_id`: the next state and
/// the `leave` notices, or `None` when the room does not exist.
pub open spec fn remove_outcome(m: ManagerView, room_id: Seq<char>, id: Seq<char>) -> (ManagerView, Option<Seq<MessageView>>) {
    if !has_room(m.rooms, room_id) {
        (m, None)
    } else {
        let k = room_index(m.rooms, room_id);
        let r2 = leave_room(m.rooms[k], id);
        (with_room(m, k, r2), Some(leave_notices(r2, id)))
    }
}

/// The state after creating room `room_id`: unchanged if it exists, otherwise
/// with an empty room of that id added.
pub open spec fn create_outcome(m: ManagerView, room_id: Seq<char>) -> ManagerView {
    if has_room(m.rooms, room_id) {
        m
    } else {
        ManagerView {
            rooms: m.rooms.push(RoomView { id: room_id, connections: Seq::empty(), offers: Seq::empty() }),
            inference: m.inference,
            persistence: m.persistence,
        }
    }
}

/// The models of an optional list of envelopes.
pub open spec fn opt_messages(r: Option<Vec<SignalingMessage>>) -> Option<Seq<MessageView>> {
    match r {
        Some(v) => Some(message_views(v@)),
        None => None,
    }
}

/// Recording keeps one record per key.
pub proof fn lemma_with_record(inf: Seq<RecordView>, r: RecordView)
    requires
        forall|i: int, j: int| 0 <= i < j < inf.len() ==> !same_key(inf[i], inf[j]),
    ensures
        forall|i: int, j: int| 0 <= i < j < with_record(inf, r).len() ==>
            !same_key(with_record(inf, r)[i], with_record(inf, r)[j]),
{
    let w = with_record(inf, r);
    if has_record(inf, r.room_id, r.source_sender_id) {
        let k = record_index(inf, r.room_id, r.source_sender_id);
        assert forall|a: int, b: int| 0 <= a < b < w.len() implies !same_key(w[a], w[b]) by {
            assert(!same_key(inf[a], inf[b]));
        }
    } else {
        assert forall|a: int, b: int| 0 <= a < b < w.len() implies !same_key(w[a], w[b]) by {
            if b == inf.len() {
                assert(!same_key(inf[a], r));
            }
        }
    }
}

/// Replacing a room by one with the same id that keeps the room invariant
/// keeps the manager's invariant.
pub proof fn lemma_with_room(m: ManagerView, k: int, r: RoomView)
    requires
        manager_wf(m),
        0 <= k < m.rooms.len(),
        r.id == m.rooms[k].id,
        room_wf(r),
    ensures
        manager_wf(with_room(m, k, r)),
{
    let w = with_room(m, k, r).rooms;
    assert forall|a: int, b: int| 0 <= a < b < w.len() implies w[a].id != w[b].id by {
        assert(m.rooms[a].id != m.rooms[b].id);
    }
    assert forall|a: int| 0 <= a < w.len() implies room_wf(#[trigger] w[a]) by {
        if a != k {
            assert(room_wf(m.rooms[a]));
        }
    }
}

impl RoomManager {
    /// The invariant of the room manager.
    pub open spec fn wf(&self) -> bool {
        manager_wf(self@)
    }

    /// A manager with no rooms and nothing stored.
    pub fn new() -> (r: RoomManager)
        ensures
            r.wf(),
            r@.rooms.len() == 0,
            r@.inference.len() == 0,
            r@.persistence.len() == 0,
    {
        RoomManager { rooms: Vec::new(), inference_db: Vec::new(), pending_persistence: Vec::new() }
    }

    /// The position of the room with id `id`, if there is one.
    pub fn find_room(&self, id: &String) -> (r: Option<usize>)
        requires
            self.wf(),
        ensures
            r is None <==> !has_room(self@.rooms, id@),
            r matches Some(i) ==> i == room_index(self@.rooms, id@) && i < self.rooms@.len(),
    {
        let ghost v = self@.rooms;
        let mut i: usize = 0;
        while i < self.rooms.len()
            invariant
                0 <= i <= self.rooms@.len(),
                v == room_views(self.rooms@),
                forall|a: int, b: int| 0 <= a < b < v.len() ==> v[a].id != v[b].id,
                forall|j: int| 0 <= j < i ==> (#[trigger] v[j]).id != id@,
            decreases self.rooms@.len() - i,
        {
            if self.rooms[i].id == *id {
                proof {
                    assert(v[i as int].id == id@);
                    let k = room_index(v, id@);
                    assert(v[k].id == id@);
                    if k > i {
                        assert(v[i as int].id != v[k].id);
                    }
                }
                return Some(i);
            }
            i = i + 1;
        }
        None
    }

    /// Creates an empty room `room_id`; does nothing if it exists.
    pub fn create_room(&mut self, room_id: String)
        requires
            old(self).wf(),
        ensures
            final(self).wf(),
            final(self)@ == create_outcome(old(self)@, room_id@),
    {
        if self.find_room(&room_id).is_some() {
            return;
        }
        let ghost v = self@.rooms;
        let room = Room::new(room_id);
        let ghost fresh = room@;
        self.rooms.push(room);
        assert(room_views(self.rooms@) =~= v.push(room@));
        let ghost w = self@.rooms;
        assert(forall|a: int, b: int| 0 <= a < b < w.len() ==> w[a].id != w[b].id) by {
            assert forall|a: int, b: int| 0 <= a < b < w.len() implies w[a].id != w[b].id by {
                if b == v.len() {
                    assert(v[a].id != room_id@);
                } else {
                    assert(v[a].id != v[b].id);
                }
            }
        }
        assert(forall|a: int| 0 <= a < w.len() ==> room_wf(#[trigger] w[a])) by {
            assert forall|a: int| 0 <= a < w.len() implies room_wf(#[trigger] w[a]) by {
                if a < v.len() {
                    assert(room_wf(v[a]));
                } else {
                    assert(w[a] == fresh);
                }
            }
        }
        assert(self@.rooms =~= create_outcome(old(self)@, room_id@).rooms);
    }

    /// Stores `payload` as the latest result of `source` in `room_id`.
    fn store_inference(&mut self, room_id: &String, source: &String, payload: serde_json::Value)
        requires
            old(self).wf(),
        ensures
            final(self).wf(),
            final(self)@ == (ManagerView {
                rooms: old(self)@.rooms,
                inference: with_record(old(self)@.inference, key_of(room_id@, source@, payload)),
                persistence: old(self)@.persistence,
            }),
    {
        let ghost v = self@.inference;
        let rec = InferenceRecord { room_id: copy_string(room_id), source_sender_id: copy_string(source), payload };
        assert(rec@ == key_of(room_id@, source@, payload));
        match self.find_record(room_id, source) {
            Some(i) => {
                self.inference_db.set(i, rec);
                assert(record_views(self.inference_db@) =~= v.update(i as int, rec@));
            },
            None => {
                self.inference_db.push(rec);
                assert(record_views(self.inference_db@) =~= v.push(rec@));
            },
        }
        proof {
            lemma_with_record(v, rec@);
        }
        assert(self@.inference == with_record(v, rec@));
        assert(self@.rooms == old(self)@.rooms);
        assert(manager_wf(self@));
    }

    /// The latest result of `source` in `room_id`, if one is stored.
    fn latest_inference(&self, room_id: &String, source: &String) -> (r: Option<serde_json::Value>)
        requires
            self.wf(),
        ensures
            r == lookup_inference(self@.inference, room_id@, source@),
    {
        match self.find_record(room_id, source) {
            Some(i) => Some(self.inference_db[i].payload.clone()),
            None => None,
        }
    }

    /// Handles an inference result for `source` in the room at position `k`.
    fn handle_inference(&mut self, k: usize, room_id: &String, source: String, data: &Option<Payload>) -> (r: Vec<SignalingMessage>)
        requires
            old(self).wf(),
            k == room_index(old(self)@.rooms, room_id@),
            has_room(old(self)@.rooms, room_id@),
            k < old(self)@.rooms.len(),
        ensures
            final(self).wf(),
            (final(self)@, message_views(r@)) == inference_outcome(old(self)@, k as int, room_id@, source@, opt_payload(*data)),
    {
        let ghost start = self@;
        let latest = match data {
            Some(Payload::Json(v)) => {
                self.store_inference(room_id, &source, v.clone());
                let rec = InferenceRecord { room_id: copy_string(room_id), source_sender_id: copy_string(&source), payload: v.clone() };
                let ghost before = self.pending_persistence@;
                let ghost mid = self@;
                self.pending_persistence.push(rec);
                assert(record_views(self.pending_persistence@) =~= record_views(before).push(rec@));
                assert(self@.rooms == mid.rooms && self@.inference == mid.inference);
                assert(manager_wf(self@));
                Some(v.clone())
            },
            _ => self.latest_inference(room_id, &source),
        };
        let t = make_template(SignalingMessageType::InferenceUpdate, Payload::InferenceUpdate {
            source_sender_id: source,
            latest,
        });
        let mut out: Vec<SignalingMessage> = Vec::new();
        assert(message_views(out@) =~= Seq::<MessageView>::empty());
        assert(self@.rooms == start.rooms);
        assert(self.rooms@[k as int]@ == start.rooms[k as int]);
        push_fan_out(&mut out, &self.rooms[k].connections, &t, false, &None);
        assert(message_views(out@) =~= fan_out(start.rooms[k as int].connections, t@, false, None));
        out
    }

    /// Handles envelope `message` for room `room_id`, giving a broadcast offer
    /// the offer id `offer_id`, and returns the envelopes to deliver, each
    /// addressed by its `connection_id`. `None` means nothing is delivered:
    /// the room does not exist, a required field is missing, or the kind is
    /// not one that the manager answers.
    pub fn handle_message_with_offer_id(&mut self, room_id: String, message: SignalingMessage, offer_id: String) -> (r: Option<Vec<SignalingMessage>>)
        requires
            old(self).wf(),
        ensures
            final(self).wf(),
            (final(self)@, opt_messages(r)) == handle_outcome(old(self)@, room_id@, message@, offer_id@),
    {
        let ghost start = self@;
        let k = match self.find_room(&room_id) {
            Some(k) => k,
            None => return None,
        };
        match message.message_type {
            SignalingMessageType::Join => {
                let (id, is_sender) = match (&message.connection_id, message.is_sender) {
                    (Some(id), Some(is_sender)) => (copy_string(id), is_sender),
                    _ => return None,
                };
                let out = self.rooms[k].join(&id, is_sender);
                proof {
                    lemma_with_room(start, k as int, self@.rooms[k as int]);
                    assert(self@.rooms =~= with_room(start, k as int, self@.rooms[k as int]).rooms);
                }
                Some(out)
            },
            SignalingMessageType::Offer => {
                if message.connection_id.is_some() {
                    let out = vec![message];
                    assert(message_views(out@) =~= seq![message@]);
                    return Some(out);
                }
                let out = self.rooms[k].broadcast_offer(message, offer_id);
                proof {
                    lemma_with_room(start, k as int, self@.rooms[k as int]);
                    assert(self@.rooms =~= with_room(start, k as int, self@.rooms[k as int]).rooms);
                }
                Some(out)
            },
            SignalingMessageType::Answer => {
                let out = vec![message];
                assert(message_views(out@) =~= seq![message@]);
                Some(out)
            },
            SignalingMessageType::IceCandidate => {
                if message.connection_id.is_some() {
                    let out = vec![message];
                    assert(message_views(out@) =~= seq![message@]);
                    return Some(out);
                }
                let mut out: Vec<SignalingMessage> = Vec::new();
                assert(message_views(out@) =~= Seq::<MessageView>::empty());
                push_fan_out(&mut out, &self.rooms[k].connections, &message, true, &None);
                assert(message_views(out@) =~= fan_out(start.rooms[k as int].connections, message@, true, None));
                Some(out)
            },
            SignalingMessageType::InferenceResult => {
                let source = match &message.source_sender_id {
                    Some(s) => copy_string(s),
                    None => return None,
                };
                Some(self.handle_inference(k, &room_id, source, &message.data))
            },
            _ => None,
        }
    }

    /// Handles envelope `message` for room `room_id`, minting a fresh offer id
    /// for a broadcast offer, and returns the envelopes to deliver. The
    /// outcome is that of `handle_message_with_offer_id` for some offer id.
    pub fn handle_message(&mut self, room_id: String, message: SignalingMessage) -> (r: Option<Vec<SignalingMessage>>)
        requires
            old(self).wf(),
        ensures
            final(self).wf(),
            exists|key: Seq<char>| (final(self)@, opt_messages(r)) == handle_outcome(old(self)@, room_id@, message@, key),
    {
        let broadcast = message.message_type == SignalingMessageType::Offer && message.connection_id.is_none();
        let offer_id = if broadcast { new_uuid_string() } else { String::new() };
        self.handle_message_with_offer_id(room_id, message, offer_id)
    }

    /// Evicts connection `connection_id` from room `room_id`, purging the
    /// offers it sent, and returns a `leave` notice for every remaining
    /// connection; `None` when the room does not exist.
    pub fn remove_connection(&mut self, room_id: &str, connection_id: &str) -> (r: Option<Vec<SignalingMessage>>)
        requires
            old(self).wf(),
        ensures
            final(self).wf(),
            (final(self)@, opt_messages(r)) == remove_outcome(old(self)@, room_id@, connection_id@),
    {
        let ghost start = self@;
        let rid = room_id.to_owned();
        let k = match self.find_room(&rid) {
            Some(k) => k,
            None => return None,
        };
        self.rooms[k].remove_connection(connection_id);
        proof {
            lemma_with_room(start, k as int, self@.rooms[k as int]);
            assert(self@.rooms =~= with_room(start, k as int, self@.rooms[k as int]).rooms);
        }
        let count = self.rooms[k].connections.len();
        let t = make_template(SignalingMessageType::Leave, Payload::Leave {
            connection_id: connection_id.to_owned(),
            connection_count: count,
        });
        let mut out: Vec<SignalingMessage> = Vec::new();
        assert(message_views(out@) =~= Seq::<MessageView>::empty());
        push_fan_out(&mut out, &self.rooms[k].connections, &t, false, &None);
        assert(message_views(out@) =~= leave_notices(self@.rooms[k as int], connection_id@));
        Some(out)
    }

    /// Hands over the inference results queued for the persistence sink,
    /// oldest first, and empties the queue.
    pub fn take_persistence_requests(&mut self) -> (r: Vec<InferenceRecord>)
        requires
            old(self).wf(),
        ensures
            final(self).wf(),
            record_views(r@) == old(self)@.persistence,
            final(self)@ == (ManagerView {
                rooms: old(self)@.rooms,
                inference: old(self)@.inference,
                persistence: Seq::empty(),
            }),
    {
        let mut taken: Vec<InferenceRecord> = Vec::new();
        std::mem::swap(&mut taken, &mut self.pending_persistence);
        assert(record_views(self.pending_persistence@) =~= Seq::<RecordView>::empty());
        taken
    }

    /// The position of the record for `room_id` and `source`, if there is one.
    fn find_record(&self, room_id: &String, source: &String) -> (r: Option<usize>)
        requires
            self.wf(),
        ensures
            r is None <==> !has_record(self@.inference, room_id@, source@),
            r matches Some(i) ==> i == record_index(self@.inference, room_id@, source@) && i < self.inference_db@.len(),
    {
        let ghost v = self@.inference;
        let mut i: usize = 0;
        while i < self.inference_db.len()
            invariant
                0 <= i <= self.inference_db@.len(),
                v == record_views(self.inference_db@),
                forall|a: int, b: int| 0 <= a < b < v.len() ==> !same_key(v[a], v[b]),
                forall|j: int| 0 <= j < i ==> !((#[trigger] v[j]).room_id == room_id@ && v[j].source_sender_id == source@),
            decreases self.inference_db@.len() - i,
        {
            if self.inference_db[i].room_id == *room_id && self.inference_db[i].source_sender_id == *source {
                proof {
                    assert(v[i as int].room_id == room_id@ && v[i as int].source_sender_id == source@);
                    let k = record_index(v, room_id@, source@);
                    assert(v[k].room_id == room_id@ && v[k].source_sender_id == source@);
                    if k > i {
                        assert(!same_key(v[i as int], v[k]));
                    }
                }
                return Some(i);
            }
            i = i + 1;
        }
        None
    }
}

/// A fan-out to every connection, none of which is skipped, gives one copy
/// per connection, in connection order.
pub proof fn lemma_fan_out_everyone(conns: Seq<ConnView>, t: MessageView, skip: Option<Seq<char>>)
    requires
        forall|i: int| 0 <= i < conns.len() ==> skip != Some((#[trigger] conns[i]).id),
    ensures
        fan_out(conns, t, false, skip).len() == conns.len(),
        forall|i: int| 0 <= i < conns.len() ==> #[trigger] fan_out(conns, t, false, skip)[i] == readdressed(t, conns[i].id),
    decreases conns.len(),
{
    if conns.len() > 0 {
        let init = conns.drop_last();
        assert forall|i: int| 0 <= i < init.len() implies skip != Some((#[trigger] init[i]).id) by {
            assert(init[i] == conns[i]);
        }
        lemma_fan_out_everyone(init, t, skip);
        assert(conns[conns.len() - 1] == conns.last());
    }
}

/// The state after any of the manager's operations keeps the manager's
/// invariant.
pub proof fn lemma_operations_keep_wf(m: ManagerView, room_id: Seq<char>, msg: MessageView, key: Seq<char>, id: Seq<char>)
    requires
        manager_wf(m),
    ensures
        manager_wf(handle_outcome(m, room_id, msg, key).0),
        manager_wf(remove_outcome(m, room_id, id).0),
        manager_wf(create_outcome(m, room_id)),
{
    if has_room(m.rooms, room_id) {
        let k = room_index(m.rooms, room_id);
        let r = m.rooms[k];
        assert(room_wf(r));
        match msg.message_type {
            SignalingMessageType::Join => {
                if let (Some(cid), Some(is_sender)) = (msg.connection_id, msg.is_sender) {
                    if !(is_sender && has_sender(r.connections)) {
                        lemma_with_connection(r.connections, cid, is_sender);
                    }
                    lemma_with_room(m, k, join_outcome(r, cid, is_sender).0);
                }
            },
            SignalingMessageType::Offer => {
                if msg.connection_id is None {
                    lemma_with_offer(r.offers, keyed_offer(msg, key));
                    lemma_with_room(m, k, broadcast_outcome(r, msg, key).0);
                }
            },
            SignalingMessageType::InferenceResult => {
                if let Some(source) = msg.source_sender_id {
                    if let Some(PayloadView::Json(v)) = msg.data {
                        lemma_with_record(m.inference, key_of(room_id, source, v));
                    }
                }
            },
            _ => {},
        }
        lemma_without_connection(r.connections, id);
        lemma_purge_offers(r.offers, id);
        lemma_with_room(m, k, leave_room(r, id));
    } else {
        let w = create_outcome(m, room_id).rooms;
        let fresh = RoomView { id: room_id, connections: Seq::empty(), offers: Seq::empty() };
        assert forall|a: int, b: int| 0 <= a < b < w.len() implies w[a].id != w[b].id by {
            if b == m.rooms.len() {
                assert(m.rooms[a].id != room_id);
            } else {
                assert(m.rooms[a].id != m.rooms[b].id);
            }
        }
        assert forall|a: int| 0 <= a < w.len() implies room_wf(#[trigger] w[a]) by {
            if a < m.rooms.len() {
                assert(room_wf(m.rooms[a]));
            } else {
                assert(w[a] == fresh);
            }
        }
    }
}

/// Sender uniqueness: in every state that the manager reaches, no room has
/// two senders. The manager starts without rooms; every operation keeps its
/// invariant; and the invariant allows at most one sender per room.
pub proof fn law_sender_uniqueness(m: ManagerView, room_id: Seq<char>, msg: MessageView, key: Seq<char>, id: Seq<char>)
    requires
        manager_wf(m),
    ensures
        forall|k: int| 0 <= k < m.rooms.len() ==> at_most_one_sender(#[trigger] m.rooms[k].connections),
        manager_wf(handle_outcome(m, room_id, msg, key).0),
        manager_wf(remove_outcome(m, room_id, id).0),
        manager_wf(create_outcome(m, room_id)),
{
    assert forall|k: int| 0 <= k < m.rooms.len() implies at_most_one_sender(#[trigger] m.rooms[k].connections) by {
        assert(room_wf(m.rooms[k]));
    }
    lemma_operations_keep_wf(m, room_id, msg, key, id);
}

/// Offer referential integrity: after connection `id` is evicted from room
/// `room_id`, no offer cached in that room was sent by `id`.
pub proof fn law_eviction_purges_offers(m: ManagerView, room_id: Seq<char>, id: Seq<char>)
    requires
        manager_wf(m),
    ensures
        forall|k: int, i: int|
            0 <= k < remove_outcome(m, room_id, id).0.rooms.len()
                && remove_outcome(m, room_id, id).0.rooms[k].id == room_id
                && 0 <= i < remove_outcome(m, room_id, id).0.rooms[k].offers.len()
                ==> (#[trigger] remove_outcome(m, room_id, id).0.rooms[k].offers[i]).sender_id != Some(id),
{
    if has_room(m.rooms, room_id) {
        let k0 = room_index(m.rooms, room_id);
        let r = m.rooms[k0];
        assert(room_wf(r));
        lemma_purge_offers(r.offers, id);
        let m2 = remove_outcome(m, room_id, id).0;
        assert forall|k: int, i: int|
            0 <= k < m2.rooms.len() && m2.rooms[k].id == room_id && 0 <= i < m2.rooms[k].offers.len()
                implies (#[trigger] m2.rooms[k].offers[i]).sender_id != Some(id) by {
            if k != k0 {
                assert(m.rooms[k].id != m.rooms[k0].id);
            }
        }
    }
}

/// A join that the room accepts: the room exists, the envelope names the
/// joiner and its role, a sender joins only a room without one, and the
/// joiner is not already connected.
pub open spec fn accepted_join(m: ManagerView, room_id: Seq<char>, msg: MessageView) -> bool {
    &&& has_room(m.rooms, room_id)
    &&& msg.message_type == SignalingMessageType::Join
    &&& msg.connection_id is Some
    &&& msg.is_sender is Some
    &&& !(msg.is_sender->Some_0 && has_sender(m.rooms[room_index(m.rooms, room_id)].connections))
    &&& !has_conn(m.rooms[room_index(m.rooms, room_id)].connections, msg.connection_id->Some_0)
}

/// Fan-out completeness of a join: a room with N connections answers an
/// accepted join with 1 + N envelopes, the room info to the joiner and a
/// new-peer notice to each earlier connection in order, followed, for a
/// viewer, by one offer to the joiner per cached offer.
pub proof fn law_join_fan_out(m: ManagerView, room_id: Seq<char>, msg: MessageView, key: Seq<char>)
    requires
        manager_wf(m),
        accepted_join(m, room_id, msg),
    ensures
        ({
            let r = m.rooms[room_index(m.rooms, room_id)];
            let id = msg.connection_id->Some_0;
            let n = r.connections.len();
            let extra = if msg.is_sender->Some_0 { 0 } else { r.offers.len() };
            handle_outcome(m, room_id, msg, key).1 matches Some(out)
                && out.len() == 1 + n + extra
                && out[0].message_type == SignalingMessageType::RoomInfo
                && out[0].connection_id == Some(id)
                && (forall|i: int| 0 <= i < n ==>
                    (#[trigger] out[1 + i]).message_type == SignalingMessageType::NewPeer
                        && out[1 + i].connection_id == Some(r.connections[i].id))
                && (forall|j: int| 0 <= j < extra ==>
                    (#[trigger] out[1 + n + j]).message_type == SignalingMessageType::Offer
                        && out[1 + n + j].connection_id == Some(id))
        }),
{
    let k = room_index(m.rooms, room_id);
    let r = m.rooms[k];
    let id = msg.connection_id->Some_0;
    let is_sender = msg.is_sender->Some_0;
    let conns = with_connection(r.connections, id, is_sender);
    assert(conns == r.connections.push(ConnView { id: id, is_sender: is_sender }));
    assert(conns.drop_last() =~= r.connections);
    assert forall|i: int| 0 <= i < r.connections.len() implies Some(id) != Some((#[trigger] r.connections[i]).id) by {
        if r.connections[i].id == id {
            assert(has_conn(r.connections, id));
        }
    }
    let note = template(SignalingMessageType::NewPeer, PayloadView::NewPeer {
        connection_id: id,
        is_sender: is_sender,
        connection_count: conns.len() as usize,
    });
    lemma_fan_out_everyone(r.connections, note, Some(id));
    assert(fan_out(conns, note, false, Some(id)) == fan_out(r.connections, note, false, Some(id)));
}

/// Inference fan-out: an inference result that names its source, in a room
/// with M connections, is answered with exactly M inference updates, one to
/// each connection in order.
pub proof fn law_inference_fan_out(m: ManagerView, room_id: Seq<char>, msg: MessageView, key: Seq<char>)
    requires
        manager_wf(m),
        has_room(m.rooms, room_id),
        msg.message_type == SignalingMessageType::InferenceResult,
        msg.source_sender_id is Some,
    ensures
        ({
            let conns = m.rooms[room_index(m.rooms, room_id)].connections;
            handle_outcome(m, room_id, msg, key).1 matches Some(out)
                && out.len() == conns.len()
                && (forall|i: int| 0 <= i < conns.len() ==>
                    (#[trigger] out[i]).message_type == SignalingMessageType::InferenceUpdate
                        && out[i].connection_id == Some(conns[i].id))
        }),
{
    let k = room_index(m.rooms, room_id);
    let conns = m.rooms[k].connections;
    let source = msg.source_sender_id->Some_0;
    let latest = match msg.data {
        Some(PayloadView::Json(v)) => Some(v),
        _ => lookup_inference(m.inference, room_id, source),
    };
    let t = template(SignalingMessageType::InferenceUpdate, PayloadView::InferenceUpdate {
        source_sender_id: source,
        latest: latest,
    });
    lemma_fan_out_everyone(conns, t, None);
}

} // verus!
