//! The STUN responder: a stateless packet classifier that answers Binding
//! Requests with the requester's XOR-MAPPED-ADDRESS.

use vstd::prelude::*;
use crate::wire::{
    be16, decode_xor_v4, lemma_xor_v4_round_trip, push_u16, push_xor_address, read_u16_be, u16_bytes, xor_address_body, SocketAddress,
    HEADER_LEN,
};

verus! {

pub const BINDING_REQUEST: u16 = 0x0001;
pub const BINDING_RESPONSE: u16 = 0x0101;
pub const BINDING_ERROR_RESPONSE: u16 = 0x0111;

pub const XOR_MAPPED_ADDRESS: u16 = 0x0020;
pub const ERROR_CODE: u16 = 0x0009;

/// Length of the reason phrase "Bad Request".
pub const BAD_REQUEST_LEN: u16 = 11;

/// A packet is well framed when it holds the whole header and exactly the
/// body length that the header announces.
pub open spec fn well_framed(p: Seq<u8>) -> bool {
    p.len() >= 20 && p.len() == 20 + be16(p[2], p[3])
}

/// The message type of a packet with a whole header.
pub open spec fn message_type(p: Seq<u8>) -> u16 {
    be16(p[0], p[1])
}

/// Magic cookie and transaction id of a request: bytes 4 to 19.
pub open spec fn cookie_and_transaction(p: Seq<u8>) -> Seq<u8> {
    p.subrange(4, 20)
}

/// An attribute: its type, the length of its value, and the value.
pub open spec fn attribute(kind: u16, value: Seq<u8>) -> Seq<u8> {
    u16_bytes(kind) + u16_bytes(value.len() as u16) + value
}

/// A message: its type, the length of its body, the cookie and transaction id
/// taken from the request, and the body.
pub open spec fn message(kind: u16, request: Seq<u8>, body: Seq<u8>) -> Seq<u8> {
    u16_bytes(kind) + u16_bytes(body.len() as u16) + cookie_and_transaction(request) + body
}

/// The bytes of "Bad Request".
pub open spec fn bad_request_phrase() -> Seq<u8> {
    seq![66u8, 97u8, 100u8, 32u8, 82u8, 101u8, 113u8, 117u8, 101u8, 115u8, 116u8]
}

/// ERROR-CODE for 400 Bad Request: two reserved bytes, the class 4, the number 0,
/// the reason phrase, and one byte that pads the attribute to a multiple of four.
pub open spec fn bad_request_attribute() -> Seq<u8> {
    attribute(ERROR_CODE, seq![0u8, 0u8, 4u8, 0u8] + bad_request_phrase()) + seq![0u8]
}

/// The Binding Response to `request` from `src`.
pub open spec fn binding_response(request: Seq<u8>, src: SocketAddress) -> Seq<u8> {
    message(BINDING_RESPONSE, request, attribute(XOR_MAPPED_ADDRESS, xor_address_body(src)))
}

/// An error response of type `kind` to `request`.
pub open spec fn error_response(kind: u16, request: Seq<u8>) -> Seq<u8> {
    message(kind, request, bad_request_attribute())
}

/// What the responder sends back for a packet from `src`.
pub open spec fn stun_reply(p: Seq<u8>, src: SocketAddress) -> Option<Seq<u8>> {
    if !well_framed(p) {
        None
    } else if message_type(p) == BINDING_REQUEST {
        Some(binding_response(p, src))
    } else {
        Some(error_response(BINDING_ERROR_RESPONSE, p))
    }
}

/// The bytes of an optional packet.
pub open spec fn opt_bytes(r: Option<Vec<u8>>) -> Option<Seq<u8>> {
    match r {
        Some(v) => Some(v@),
        None => None,
    }
}

/// Checks the framing of a packet: the whole header is there and the body is
/// exactly as long as the header says.
pub fn check_framing(packet: &[u8]) -> (r: bool)
    ensures
        r == well_framed(packet@),
{
    if packet.len() < HEADER_LEN {
        return false;
    }
    let body_len = read_u16_be(&packet[2..4]);
    packet.len() - HEADER_LEN == body_len as usize
}

/// Reads the message type of a packet with a whole header.
pub fn read_message_type(packet: &[u8]) -> (r: u16)
    requires
        packet@.len() >= 20,
    ensures
        r == message_type(packet@),
{
    read_u16_be(&packet[0..2])
}

/// Appends an attribute with the given type and value.
pub fn push_attribute(out: &mut Vec<u8>, kind: u16, value: &Vec<u8>)
    requires
        value@.len() <= u16::MAX,
    ensures
        final(out)@ == old(out)@ + attribute(kind, value@),
{
    push_u16(out, kind);
    push_u16(out, value.len() as u16);
    let mut i: usize = 0;
    while i < value.len()
        invariant
            0 <= i <= value@.len(),
            out@ == old(out)@ + u16_bytes(kind) + u16_bytes(value@.len() as u16) + value@.subrange(0, i as int),
        decreases value@.len() - i,
    {
        out.push(value[i]);
        i = i + 1;
        assert(out@ =~= old(out)@ + u16_bytes(kind) + u16_bytes(value@.len() as u16) + value@.subrange(0, i as int));
    }
    assert(value@.subrange(0, value@.len() as int) =~= value@);
    assert(out@ =~= old(out)@ + attribute(kind, value@));
}

/// Builds a message of type `kind` around `body`, with the cookie and
/// transaction id of `request` and the length of `body` in the header.
pub fn build_message(kind: u16, request: &[u8], body: &Vec<u8>) -> (r: Vec<u8>)
    requires
        request@.len() >= 20,
        body@.len() <= u16::MAX,
    ensures
        r@ == message(kind, request@, body@),
{
    let mut out: Vec<u8> = Vec::new();
    push_u16(&mut out, kind);
    push_u16(&mut out, body.len() as u16);
    let mut i: usize = 4;
    while i < 20
        invariant
            4 <= i <= 20,
            request@.len() >= 20,
            out@ == u16_bytes(kind) + u16_bytes(body@.len() as u16) + request@.subrange(4, i as int),
        decreases 20 - i,
    {
        out.push(request[i]);
        i = i + 1;
        assert(out@ =~= u16_bytes(kind) + u16_bytes(body@.len() as u16) + request@.subrange(4, i as int));
    }
    let mut j: usize = 0;
    let ghost head = out@;
    while j < body.len()
        invariant
            0 <= j <= body@.len(),
            out@ == head + body@.subrange(0, j as int),
        decreases body@.len() - j,
    {
        out.push(body[j]);
        j = j + 1;
        assert(out@ =~= head + body@.subrange(0, j as int));
    }
    assert(body@.subrange(0, body@.len() as int) =~= body@);
    assert(out@ =~= message(kind, request@, body@));
    out
}

/// The ERROR-CODE attribute for 400 Bad Request.
pub fn bad_request_bytes() -> (r: Vec<u8>)
    ensures
        r@ == bad_request_attribute(),
{
    let value: Vec<u8> = vec![0u8, 0u8, 4u8, 0u8, 66u8, 97u8, 100u8, 32u8, 82u8, 101u8, 113u8, 117u8, 101u8, 115u8, 116u8];
    assert(value@ =~= seq![0u8, 0u8, 4u8, 0u8] + bad_request_phrase());
    let mut out: Vec<u8> = Vec::new();
    push_attribute(&mut out, ERROR_CODE, &value);
    out.push(0u8);
    assert(out@ =~= bad_request_attribute());
    out
}

/// The Binding Response to `request` from `src_addr`.
pub fn create_binding_response(request: &[u8], src_addr: &SocketAddress) -> (r: Vec<u8>)
    requires
        request@.len() >= 20,
    ensures
        r@ == binding_response(request@, *src_addr),
{
    let mut body: Vec<u8> = Vec::new();
    let mut value: Vec<u8> = Vec::new();
    push_xor_address(&mut value, src_addr);
    push_attribute(&mut body, XOR_MAPPED_ADDRESS, &value);
    assert(body@ =~= attribute(XOR_MAPPED_ADDRESS, xor_address_body(*src_addr)));
    build_message(BINDING_RESPONSE, request, &body)
}

/// An error response of type `kind` to `request`, reporting 400 Bad Request.
pub fn create_error_response(kind: u16, request: &[u8]) -> (r: Vec<u8>)
    requires
        request@.len() >= 20,
    ensures
        r@ == error_response(kind, request@),
{
    let body = bad_request_bytes();
    build_message(kind, request, &body)
}

/// Answers a packet from `src_addr`: nothing for a badly framed packet, a
/// Binding Response for a Binding Request, and a Binding Error Response with
/// 400 Bad Request for any other message type.
pub fn handle_stun_packet(packet: &[u8], src_addr: &SocketAddress) -> (r: Option<Vec<u8>>)
    ensures
        opt_bytes(r) == stun_reply(packet@, *src_addr),
{
    if !check_framing(packet) {
        return None;
    }
    if read_message_type(packet) == BINDING_REQUEST {
        Some(create_binding_response(packet, src_addr))
    } else {
        Some(create_error_response(BINDING_ERROR_RESPONSE, packet))
    }
}

/// Decoding the XOR-MAPPED-ADDRESS of the answer to a Binding Request from
/// an IPv4 address, with the magic cookie, gives that address back: the
/// answer is 32 bytes, its attribute starts at byte 20, and the attribute's
/// value is bytes 24 to 31.
pub proof fn law_binding_maps_source(p: Seq<u8>, src: SocketAddress)
    requires
        well_framed(p),
        message_type(p) == BINDING_REQUEST,
        src.ip is V4,
    ensures
        stun_reply(p, src) matches Some(r) && r.len() == 32
            && be16(r[20], r[21]) == XOR_MAPPED_ADDRESS
            && decode_xor_v4(r.subrange(24, 32)) == src,
{
    lemma_xor_v4_round_trip(src);
    let body = xor_address_body(src);
    let r = binding_response(p, src);
    assert(r.subrange(24, 32) =~= body);
    assert(r[20] == 0u8 && r[21] == 0x20u8);
}

/// Every answer echoes the magic cookie and the 12-byte transaction id of the
/// request: bytes 4 to 19 of the answer are those of the request.
pub proof fn law_transaction_id_echoed(p: Seq<u8>, src: SocketAddress)
    requires
        well_framed(p),
    ensures
        stun_reply(p, src) matches Some(r) && r.len() >= 20 && r.subrange(4, 20) == p.subrange(4, 20)
            && r.subrange(8, 20) == p.subrange(8, 20),
{
    let r = stun_reply(p, src)->Some_0;
    assert(r.subrange(4, 20) =~= p.subrange(4, 20));
    assert(r.subrange(8, 20) =~= p.subrange(8, 20));
}

} // verus!
