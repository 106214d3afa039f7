//! The TURN responder: allocations with per-client relay ports, and the
//! parsing of Send indications.

use vstd::prelude::*;
use crate::fresh::{new_uuid_string, now_millis};
use crate::stun::{
    attribute, check_framing, create_error_response, error_response, message, push_attribute,
    read_message_type, well_framed, message_type, build_message,
};
use crate::signaling::copy_string;
use crate::wire::{
    be16, decode_xor_v4, push_u32, push_xor_address, read_u16_be, u32_bytes, xor_address_body,
    IpAddress, SocketAddress, HEADER_LEN, OCTET_XOR, PORT_XOR,
};

verus! {

pub const ALLOCATE_REQUEST: u16 = 0x0003;
pub const ALLOCATE_RESPONSE: u16 = 0x0103;
pub const ALLOCATE_ERROR_RESPONSE: u16 = 0x0113;
pub const SEND_INDICATION: u16 = 0x0016;

pub const XOR_RELAYED_ADDRESS: u16 = 0x0016;
pub const LIFETIME: u16 = 0x000d;
pub const XOR_PEER_ADDRESS: u16 = 0x0012;
pub const DATA: u16 = 0x0013;

/// Lifetime of an allocation, in seconds.
pub const ALLOCATION_LIFETIME_SECS: u32 = 600;
/// Lifetime of an allocation, in milliseconds.
pub const ALLOCATION_LIFETIME_MS: i64 = 600000;

/// The range that relay ports are drawn from.
pub const RELAY_PORT_MIN: u16 = 49152;
pub const RELAY_PORT_MAX: u16 = 65535;

/// A permission for a peer address, until a time in milliseconds since the epoch.
#[derive(Clone, Copy, Debug)]
pub struct Permission {
    pub peer_addr: SocketAddress,
    pub expires_at: i64,
}

/// A relay allocation.
#[derive(Clone, Debug)]
pub struct TurnAllocation {
    pub id: String,
    pub client_addr: SocketAddress,
    pub relayed_addr: SocketAddress,
    pub peer_addr: Option<SocketAddress>,
    /// When the allocation expires, in milliseconds since the Unix epoch.
    pub lifetime: i64,
    pub permissions: Vec<Permission>,
}

/// Model of an allocation.
pub struct AllocationView {
    pub id: Seq<char>,
    pub client_addr: SocketAddress,
    pub relayed_addr: SocketAddress,
    pub peer_addr: Option<SocketAddress>,
    pub lifetime: i64,
    pub permissions: Seq<Permission>,
}

impl View for TurnAllocation {
    type V = AllocationView;

    open spec fn view(&self) -> AllocationView {
        AllocationView {
            id: self.id@,
            client_addr: self.client_addr,
            relayed_addr: self.relayed_addr,
            peer_addr: self.peer_addr,
            lifetime: self.lifetime,
            permissions: self.permissions@,
        }
    }
}

/// An entry of the relay-port index: the allocation that a port serves.
#[derive(Clone, Debug)]
pub struct RelayPort {
    pub port: u16,
    pub allocation_id: String,
}

/// Model of a relay-port entry.
pub struct RelayPortView {
    pub port: u16,
    pub allocation_id: Seq<char>,
}

impl View for RelayPort {
    type V = RelayPortView;

    open spec fn view(&self) -> RelayPortView {
        RelayPortView { port: self.port, allocation_id: self.allocation_id@ }
    }
}

/// The state of the TURN responder: the allocation table, the index from relay
/// port to allocation, and the next relay port to hand out.
#[derive(Clone, Debug)]
pub struct TurnState {
    pub allocations: Vec<TurnAllocation>,
    pub relay_ports: Vec<RelayPort>,
    pub next_relay_port: u16,
}

/// Model of the TURN responder's state.
pub struct TurnView {
    pub allocations: Seq<AllocationView>,
    pub relay_ports: Seq<RelayPortView>,
    pub next_relay_port: u16,
}

impl View for TurnState {
    type V = TurnView;

    open spec fn view(&self) -> TurnView {
        TurnView {
            allocations: self.allocations@.map_values(|a: TurnAllocation| a@),
            relay_ports: self.relay_ports@.map_values(|p: RelayPort| p@),
            next_relay_port: self.next_relay_port,
        }
    }
}

/// The invariant of the TURN state: the next relay port lies in the relay
/// range, and the table and the index hold one entry per key.
pub open spec fn turn_wf(t: TurnView) -> bool {
    &&& RELAY_PORT_MIN <= t.next_relay_port <= RELAY_PORT_MAX
    &&& forall|i: int, j: int| 0 <= i < j < t.allocations.len() ==> t.allocations[i].id != t.allocations[j].id
    &&& forall|i: int, j: int| 0 <= i < j < t.relay_ports.len() ==> t.relay_ports[i].port != t.relay_ports[j].port
}

/// The relay port after `p`: the next one up, wrapping to the bottom of the range.
pub open spec fn port_after(p: u16) -> u16 {
    if p >= RELAY_PORT_MAX { RELAY_PORT_MIN } else { (p + 1) as u16 }
}

/// When an allocation made at `now` expires: 600 seconds later, saturating.
pub open spec fn expiry(now: i64) -> i64 {
    if now <= i64::MAX - ALLOCATION_LIFETIME_MS { (now + ALLOCATION_LIFETIME_MS) as i64 } else { i64::MAX }
}

/// Some allocation has the id `id`.
pub open spec fn has_allocation(s: Seq<AllocationView>, id: Seq<char>) -> bool {
    exists|i: int| 0 <= i < s.len() && (#[trigger] s[i]).id == id
}

/// The position of the allocation with id `id`.
pub open spec fn allocation_index(s: Seq<AllocationView>, id: Seq<char>) -> int {
    choose|i: int| 0 <= i < s.len() && (#[trigger] s[i]).id == id
}

/// The table after storing `a`, which replaces an allocation with the same id.
pub open spec fn with_allocation(s: Seq<AllocationView>, a: AllocationView) -> Seq<AllocationView> {
    if has_allocation(s, a.id) {
        s.update(allocation_index(s, a.id), a)
    } else {
        s.push(a)
    }
}

/// Some index entry is for port `port`.
pub open spec fn has_port(s: Seq<RelayPortView>, port: u16) -> bool {
    exists|i: int| 0 <= i < s.len() && (#[trigger] s[i]).port == port
}

/// The position of the index entry for port `port`.
pub open spec fn port_index(s: Seq<RelayPortView>, port: u16) -> int {
    choose|i: int| 0 <= i < s.len() && (#[trigger] s[i]).port == port
}

/// The index after pointing `e.port` at `e.allocation_id`.
pub open spec fn with_port(s: Seq<RelayPortView>, e: RelayPortView) -> Seq<RelayPortView> {
    if has_port(s, e.port) {
        s.update(port_index(s, e.port), e)
    } else {
        s.push(e)
    }
}

/// The relayed address that a new allocation for `client` gets in state `t`:
/// the client's IP with the next relay port.
pub open spec fn next_relayed(t: TurnView, client: SocketAddress) -> SocketAddress {
    SocketAddress { ip: client.ip, port: t.next_relay_port }
}

/// The state after allocating for `client` under the id `id` at time `now`.
pub open spec fn allocate_outcome(t: TurnView, client: SocketAddress, id: Seq<char>, now: i64) -> TurnView {
    let relayed = next_relayed(t, client);
    let a = AllocationView {
        id: id,
        client_addr: client,
        relayed_addr: relayed,
        peer_addr: None,
        lifetime: expiry(now),
        permissions: Seq::empty(),
    };
    TurnView {
        allocations: with_allocation(t.allocations, a),
        relay_ports: with_port(t.relay_ports, RelayPortView { port: relayed.port, allocation_id: id }),
        next_relay_port: port_after(t.next_relay_port),
    }
}

/// The Allocate Response to `request` for the relayed address `relayed`.
pub open spec fn allocate_response(request: Seq<u8>, relayed: SocketAddress) -> Seq<u8> {
    message(
        ALLOCATE_RESPONSE,
        request,
        attribute(XOR_RELAYED_ADDRESS, xor_address_body(relayed)) + attribute(LIFETIME, u32_bytes(ALLOCATION_LIFETIME_SECS)),
    )
}

/// What the responder does with packet `p` from `src`, where `id` and `now`
/// are the id and time that a new allocation gets: the next state, and the
/// response to send, if any.
pub open spec fn turn_reply(t: TurnView, p: Seq<u8>, src: SocketAddress, id: Seq<char>, now: i64) -> (TurnView, Option<Seq<u8>>) {
    if !well_framed(p) {
        (t, None)
    } else if message_type(p) == ALLOCATE_REQUEST {
        (allocate_outcome(t, src, id, now), Some(allocate_response(p, next_relayed(t, src))))
    } else if message_type(p) == SEND_INDICATION {
        (t, None)
    } else {
        (t, Some(error_response(ALLOCATE_ERROR_RESPONSE, p)))
    }
}

impl TurnState {
    /// The invariant of the TURN state.
    pub open spec fn wf(&self) -> bool {
        turn_wf(self@)
    }

    /// No allocations; relay ports are handed out from the bottom of the range.
    pub fn new() -> (r: TurnState)
        ensures
            r.wf(),
            r@.allocations.len() == 0,
            r@.relay_ports.len() == 0,
            r@.next_relay_port == RELAY_PORT_MIN,
    {
        let r = TurnState { allocations: Vec::new(), relay_ports: Vec::new(), next_relay_port: RELAY_PORT_MIN };
        assert(r@.allocations =~= Seq::<AllocationView>::empty());
        assert(r@.relay_ports =~= Seq::<RelayPortView>::empty());
        r
    }

    /// Hands out the next relay port and advances the counter, wrapping from
    /// the top of the range to its bottom.
    pub fn get_next_relay_port(&mut self) -> (r: u16)
        requires
            old(self).wf(),
        ensures
            final(self).wf(),
            r == old(self).next_relay_port,
            RELAY_PORT_MIN <= r <= RELAY_PORT_MAX,
            final(self).next_relay_port == port_after(r),
            final(self).allocations == old(self).allocations,
            final(self).relay_ports == old(self).relay_ports,
    {
        let port = self.next_relay_port;
        if port >= RELAY_PORT_MAX {
            self.next_relay_port = RELAY_PORT_MIN;
        } else {
            self.next_relay_port = port + 1;
        }
        assert(self@.allocations == old(self)@.allocations);
        assert(self@.relay_ports == old(self)@.relay_ports);
        port
    }

    /// Stores allocation `a`, replacing one with the same id.
    fn store_allocation(&mut self, a: TurnAllocation)
        requires
            old(self).wf(),
        ensures
            final(self).wf(),
            final(self)@ == (TurnView {
                allocations: with_allocation(old(self)@.allocations, a@),
                relay_ports: old(self)@.relay_ports,
                next_relay_port: old(self)@.next_relay_port,
            }),
    {
        let ghost v = self@.allocations;
        let mut i: usize = 0;
        while i < self.allocations.len()
            invariant
                0 <= i <= self.allocations@.len(),
                v == self@.allocations,
                *self == *old(self),
                turn_wf(self@),
                forall|j: int| 0 <= j < i ==> (#[trigger] v[j]).id != a@.id,
            decreases self.allocations@.len() - i,
        {
            if self.allocations[i].id == a.id {
                proof {
                    assert(v[i as int].id == a@.id);
                    let k = allocation_index(v, a@.id);
                    if k > i {
                        assert(v[i as int].id != v[k].id);
                    }
                    assert(k == i);
                }
                let ghost av = a@;
                self.allocations.set(i, a);
                assert(self@.allocations =~= v.update(i as int, av));
                assert forall|x: int, y: int| 0 <= x < y < self@.allocations.len() implies
                    self@.allocations[x].id != self@.allocations[y].id by {
                    assert(v[x].id != v[y].id);
                }
                return;
            }
            i = i + 1;
        }
        let ghost av = a@;
        self.allocations.push(a);
        assert(self@.allocations =~= v.push(av));
        assert forall|x: int, y: int| 0 <= x < y < self@.allocations.len() implies
            self@.allocations[x].id != self@.allocations[y].id by {
            if y == v.len() {
                assert(v[x].id != av.id);
            } else {
                assert(v[x].id != v[y].id);
            }
        }
    }

    /// Points relay port `e.port` at allocation `e.allocation_id`.
    fn store_relay_port(&mut self, e: RelayPort)
        requires
            old(self).wf(),
        ensures
            final(self).wf(),
            final(self)@ == (TurnView {
                allocations: old(self)@.allocations,
                relay_ports: with_port(old(self)@.relay_ports, e@),
                next_relay_port: old(self)@.next_relay_port,
            }),
    {
        let ghost v = self@.relay_ports;
        let mut i: usize = 0;
        while i < self.relay_ports.len()
            invariant
                0 <= i <= self.relay_ports@.len(),
                v == self@.relay_ports,
                *self == *old(self),
                turn_wf(self@),
                forall|j: int| 0 <= j < i ==> (#[trigger] v[j]).port != e.port,
            decreases self.relay_ports@.len() - i,
        {
            if self.relay_ports[i].port == e.port {
                proof {
                    assert(v[i as int].port == e.port);
                    let k = port_index(v, e.port);
                    if k > i {
                        assert(v[i as int].port != v[k].port);
                    }
                    assert(k == i);
                }
                let ghost ev = e@;
                self.relay_ports.set(i, e);
                assert(self@.relay_ports =~= v.update(i as int, ev));
                assert forall|x: int, y: int| 0 <= x < y < self@.relay_ports.len() implies
                    self@.relay_ports[x].port != self@.relay_ports[y].port by {
                    assert(v[x].port != v[y].port);
                }
                return;
            }
            i = i + 1;
        }
        let ghost ev = e@;
        self.relay_ports.push(e);
        assert(self@.relay_ports =~= v.push(ev));
        assert forall|x: int, y: int| 0 <= x < y < self@.relay_ports.len() implies
            self@.relay_ports[x].port != self@.relay_ports[y].port by {
            if y == v.len() {
                assert(v[x].port != ev.port);
            } else {
                assert(v[x].port != v[y].port);
            }
        }
    }

    /// Makes an allocation for `client_addr` under the id `allocation_id` at
    /// time `now_ms`, relayed on the next relay port at the client's own IP,
    /// and returns the Allocate Response with the XOR-RELAYED-ADDRESS and a
    /// LIFETIME of 600 seconds.
    pub fn create_allocate_response(&mut self, request: &[u8], client_addr: &SocketAddress, allocation_id: String, now_ms: i64) -> (r: Vec<u8>)
        requires
            old(self).wf(),
            request@.len() >= 20,
        ensures
            final(self).wf(),
            final(self)@ == allocate_outcome(old(self)@, *client_addr, allocation_id@, now_ms),
            r@ == allocate_response(request@, next_relayed(old(self)@, *client_addr)),
    {
        let relayed_port = self.get_next_relay_port();
        let relayed_addr = SocketAddress { ip: client_addr.ip, port: relayed_port };
        let lifetime = if now_ms <= i64::MAX - ALLOCATION_LIFETIME_MS { now_ms + ALLOCATION_LIFETIME_MS } else { i64::MAX };
        let allocation = TurnAllocation {
            id: copy_string(&allocation_id),
            client_addr: *client_addr,
            relayed_addr,
            peer_addr: None,
            lifetime,
            permissions: Vec::new(),
        };
        assert(allocation@.permissions =~= Seq::<Permission>::empty());
        self.store_allocation(allocation);
        self.store_relay_port(RelayPort { port: relayed_port, allocation_id });

        let mut address: Vec<u8> = Vec::new();
        push_xor_address(&mut address, &relayed_addr);
        let mut lifetime_value: Vec<u8> = Vec::new();
        push_u32(&mut lifetime_value, ALLOCATION_LIFETIME_SECS);
        let mut body: Vec<u8> = Vec::new();
        push_attribute(&mut body, XOR_RELAYED_ADDRESS, &address);
        push_attribute(&mut body, LIFETIME, &lifetime_value);
        assert(address@ =~= Seq::<u8>::empty() + xor_address_body(relayed_addr));
        assert(lifetime_value@ =~= Seq::<u8>::empty() + u32_bytes(ALLOCATION_LIFETIME_SECS));
        assert(body@ =~= attribute(XOR_RELAYED_ADDRESS, xor_address_body(relayed_addr))
            + attribute(LIFETIME, u32_bytes(ALLOCATION_LIFETIME_SECS)));
        build_message(ALLOCATE_RESPONSE, request, &body)
    }

    /// Answers packet `packet` from `src_addr`, where `allocation_id` and
    /// `now_ms` are the id and time that a new allocation gets: an Allocate
    /// Request makes an allocation and is answered; a Send indication is not
    /// answered; any other type gets an Allocate Error Response with 400 Bad
    /// Request; a badly framed packet is dropped.
    pub fn handle_turn_packet_with(&mut self, packet: &[u8], src_addr: &SocketAddress, allocation_id: String, now_ms: i64) -> (r: Option<Vec<u8>>)
        requires
            old(self).wf(),
        ensures
            final(self).wf(),
            (final(self)@, crate::stun::opt_bytes(r)) == turn_reply(old(self)@, packet@, *src_addr, allocation_id@, now_ms),
    {
        if !check_framing(packet) {
            return None;
        }
        let kind = read_message_type(packet);
        if kind == ALLOCATE_REQUEST {
            Some(self.create_allocate_response(packet, src_addr, allocation_id, now_ms))
        } else if kind == SEND_INDICATION {
            None
        } else {
            Some(create_error_response(ALLOCATE_ERROR_RESPONSE, packet))
        }
    }

    /// Answers packet `packet` from `src_addr`, minting a fresh id and reading
    /// the clock for a new allocation. The outcome is that of
    /// `handle_turn_packet_with` for some id and time.
    pub fn handle_turn_packet(&mut self, packet: &[u8], src_addr: &SocketAddress) -> (r: Option<Vec<u8>>)
        requires
            old(self).wf(),
        ensures
            final(self).wf(),
            exists|id: Seq<char>, now: i64|
                (final(self)@, crate::stun::opt_bytes(r)) == turn_reply(old(self)@, packet@, *src_addr, id, now),
    {
        let allocate = check_framing(packet) && read_message_type(packet) == ALLOCATE_REQUEST;
        let (allocation_id, now_ms) = if allocate { (new_uuid_string(), now_millis()) } else { (String::new(), 0i64) };
        self.handle_turn_packet_with(packet, src_addr, allocation_id, now_ms)
    }
}

/// `n` rounded up to a multiple of four.
pub open spec fn pad4(n: int) -> int {
    if n % 4 == 0 { n } else { n + 4 - n % 4 }
}

/// The XOR-PEER-ADDRESS and DATA found in the attributes of `p` from offset
/// `pos` on, given those found before: attributes are read in turn, each
/// padded to four bytes; a later one of a kind replaces an earlier one; an
/// attribute that overruns the packet ends the scan.
pub open spec fn scan_attributes(p: Seq<u8>, pos: int, peer: Option<SocketAddress>, data: Option<Seq<u8>>) -> (Option<SocketAddress>, Option<Seq<u8>>)
    decreases p.len() - pos,
{
    if pos < 0 || pos + 4 > p.len() {
        (peer, data)
    } else {
        let kind = be16(p[pos], p[pos + 1]);
        let len = be16(p[pos + 2], p[pos + 3]) as int;
        let body = pos + 4;
        if body + len > p.len() {
            (peer, data)
        } else {
            let peer2 = if kind == XOR_PEER_ADDRESS && len >= 8 {
                Some(decode_xor_v4(p.subrange(body, body + 8)))
            } else {
                peer
            };
            let data2 = if kind == DATA { Some(p.subrange(body, body + len)) } else { data };
            let next = body + pad4(len);
            if next > p.len() {
                (peer2, data2)
            } else {
                scan_attributes(p, next, peer2, data2)
            }
        }
    }
}

/// The relay that a Send indication asks for: the peer and the bytes.
#[derive(Clone, Debug)]
pub struct RelayIntent {
    pub peer_addr: SocketAddress,
    pub data: Vec<u8>,
}

/// The relay that packet `p` asks for: present when `p` is a well-framed Send
/// indication whose attributes hold both a peer address and data.
pub open spec fn relay_request(p: Seq<u8>) -> Option<(SocketAddress, Seq<u8>)> {
    if well_framed(p) && message_type(p) == SEND_INDICATION {
        match scan_attributes(p, 20, None, None) {
            (Some(peer), Some(d)) => Some((peer, d)),
            _ => None,
        }
    } else {
        None
    }
}

/// Reads an XOR-encoded IPv4 address from the first eight bytes of `b`.
pub fn decode_xor_peer(b: &[u8]) -> (r: SocketAddress)
    requires
        b@.len() >= 8,
    ensures
        r == decode_xor_v4(b@),
{
    let port = read_u16_be(&b[2..4]) ^ PORT_XOR;
    let ip: [u8; 4] = [b[4] ^ OCTET_XOR, b[5] ^ OCTET_XOR, b[6] ^ OCTET_XOR, b[7] ^ OCTET_XOR];
    let r = SocketAddress { ip: IpAddress::V4(ip), port };
    proof {
        let d = decode_xor_v4(b@);
        assert(b@.subrange(2, 4)[0] == b@[2] && b@.subrange(2, 4)[1] == b@[3]);
        if let IpAddress::V4(q) = d.ip {
            assert(q@ =~= ip@);
            assert(q == ip);
        }
    }
    r
}

/// Parses the attributes of a Send indication, from offset 20 on, and returns
/// the relay it asks for when both a peer address and data are there.
pub fn handle_send_indication(packet: &[u8]) -> (r: Option<RelayIntent>)
    requires
        packet@.len() >= 20,
    ensures
        match scan_attributes(packet@, 20, None, None) {
            (Some(peer), Some(d)) => r matches Some(x) && x.peer_addr == peer && x.data@ == d,
            _ => r is None,
        },
{
    let n = packet.len();
    let ghost p = packet@;
    let ghost target = scan_attributes(p, 20, None, None);
    let mut pos: usize = HEADER_LEN;
    let mut peer: Option<SocketAddress> = None;
    let mut found: Option<(usize, usize)> = None;
    let mut go = true;
    while go && n - pos >= 4
        invariant
            n == p.len(),
            pos <= n,
            p == packet@,
            target == scan_attributes(p, 20, None, None),
            found matches Some((s, l)) ==> s + l <= n,
            go ==> scan_attributes(p, pos as int, peer, match found {
                Some((s, l)) => Some(p.subrange(s as int, s + l)),
                None => None,
            }) == target,
            !go ==> (peer, match found {
                Some((s, l)) => Some(p.subrange(s as int, s + l)),
                None => None,
            }) == target,
        decreases n - pos + if go { 1int } else { 0int },
    {
        let kind = read_u16_be(&packet[pos..pos + 2]);
        let len = read_u16_be(&packet[pos + 2..pos + 4]) as usize;
        proof {
            assert(packet@.subrange(pos as int, pos + 2)[0] == p[pos as int]);
            assert(packet@.subrange(pos as int, pos + 2)[1] == p[pos + 1]);
            assert(packet@.subrange(pos + 2, pos + 4)[0] == p[pos + 2]);
            assert(packet@.subrange(pos + 2, pos + 4)[1] == p[pos + 3]);
        }
        let body = pos + 4;
        if len > n - body {
            go = false;
        } else {
            if kind == XOR_PEER_ADDRESS && len >= 8 {
                let a = decode_xor_peer(&packet[body..body + 8]);
                peer = Some(a);
            }
            if kind == DATA {
                found = Some((body, len));
            }
            let padded = if len % 4 == 0 { len } else { len + 4 - len % 4 };
            if padded > n - body {
                go = false;
            } else {
                pos = body + padded;
            }
        }
    }
    match (peer, found) {
        (Some(a), Some((s, l))) => {
            let mut bytes: Vec<u8> = Vec::new();
            let mut i: usize = s;
            while i < s + l
                invariant
                    s <= i <= s + l,
                    s + l <= n,
                    n == packet@.len(),
                    bytes@ == packet@.subrange(s as int, i as int),
                decreases s + l - i,
            {
                bytes.push(packet[i]);
                i = i + 1;
                assert(bytes@ =~= packet@.subrange(s as int, i as int));
            }
            Some(RelayIntent { peer_addr: a, data: bytes })
        },
        _ => None,
    }
}

/// The relay that `packet` asks for, if it is a well-framed Send indication
/// that names both a peer and data.
pub fn relay_intent(packet: &[u8]) -> (r: Option<RelayIntent>)
    ensures
        match relay_request(packet@) {
            Some((peer, d)) => r matches Some(x) && x.peer_addr == peer && x.data@ == d,
            None => r is None,
        },
{
    if !check_framing(packet) {
        return None;
    }
    if read_message_type(packet) != SEND_INDICATION {
        return None;
    }
    handle_send_indication(packet)
}

} // verus!
