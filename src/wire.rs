//! Shared pieces of the STUN/TURN wire format: big-endian integers,
//! transport addresses and the XOR address encoding.

use vstd::prelude::*;
use byteorder::ByteOrder;

verus! {

/// Mask applied to a port in an XOR-encoded address: the high half of the
/// magic cookie 0x2112A442.
pub const PORT_XOR: u16 = 0x2112;

/// Mask applied to each octet of an XOR-encoded IPv4 address.
pub const OCTET_XOR: u8 = 0x21;

/// Size of the fixed message header.
pub const HEADER_LEN: usize = 20;

/// An IP address, as its octets.
#[derive(Clone, Copy, Debug)]
pub enum IpAddress {
    V4([u8; 4]),
    V6([u8; 16]),
}

/// A transport address: an IP address and a port.
#[derive(Clone, Copy, Debug)]
pub struct SocketAddress {
    pub ip: IpAddress,
    pub port: u16,
}

/// The big-endian value of two bytes.
pub open spec fn be16(hi: u8, lo: u8) -> u16 {
    (hi as int * 256 + lo as int) as u16
}

/// The two big-endian bytes of a 16-bit value.
pub open spec fn u16_bytes(x: u16) -> Seq<u8> {
    seq![(x / 256) as u8, (x % 256) as u8]
}

/// The four big-endian bytes of a 32-bit value.
pub open spec fn u32_bytes(x: u32) -> Seq<u8> {
    seq![(x / 0x1000000) as u8, ((x / 0x10000) % 256) as u8, ((x / 256) % 256) as u8, (x % 256) as u8]
}

/// Body of an XOR-encoded address attribute: a reserved byte, the family,
/// the masked port and the masked address. IPv6 addresses are not encoded:
/// sixteen zero bytes stand in their place.
pub open spec fn xor_address_body(addr: SocketAddress) -> Seq<u8> {
    let head = seq![0u8, 1u8] + u16_bytes(addr.port ^ PORT_XOR);
    match addr.ip {
        IpAddress::V4(o) => head + seq![
            o[0] ^ OCTET_XOR,
            o[1] ^ OCTET_XOR,
            o[2] ^ OCTET_XOR,
            o[3] ^ OCTET_XOR,
        ],
        IpAddress::V6(_) => head + Seq::new(16, |i: int| 0u8),
    }
}

/// The IPv4 address that an XOR-encoded address body of at least eight bytes names.
pub open spec fn decode_xor_v4(body: Seq<u8>) -> SocketAddress {
    SocketAddress {
        ip: IpAddress::V4([
            body[4] ^ OCTET_XOR,
            body[5] ^ OCTET_XOR,
            body[6] ^ OCTET_XOR,
            body[7] ^ OCTET_XOR,
        ]),
        port: be16(body[2], body[3]) ^ PORT_XOR,
    }
}

/// Relies on byteorder's `BigEndian::read_u16`: the first two bytes of the
/// buffer, most significant first. It panics on a shorter buffer.
#[verifier::external_body]
pub(crate) fn read_u16_be(buf: &[u8]) -> (r: u16)
    requires
        buf@.len() >= 2,
    ensures
        r == be16(buf@[0], buf@[1]),
{
    byteorder::BigEndian::read_u16(buf)
}

/// Appends the big-endian bytes of `x`.
pub fn push_u16(out: &mut Vec<u8>, x: u16)
    ensures
        final(out)@ == old(out)@ + u16_bytes(x),
{
    out.push((x / 256) as u8);
    out.push((x % 256) as u8);
    assert(final(out)@ =~= old(out)@ + u16_bytes(x));
}

/// Appends the big-endian bytes of `x`.
pub fn push_u32(out: &mut Vec<u8>, x: u32)
    ensures
        final(out)@ == old(out)@ + u32_bytes(x),
{
    out.push((x / 0x1000000) as u8);
    out.push(((x / 0x10000) % 256) as u8);
    out.push(((x / 256) % 256) as u8);
    out.push((x % 256) as u8);
    assert(final(out)@ =~= old(out)@ + u32_bytes(x));
}

/// Appends the XOR-encoded body of `addr`.
pub fn push_xor_address(out: &mut Vec<u8>, addr: &SocketAddress)
    ensures
        final(out)@ == old(out)@ + xor_address_body(*addr),
{
    out.push(0u8);
    out.push(1u8);
    push_u16(out, addr.port ^ PORT_XOR);
    match addr.ip {
        IpAddress::V4(o) => {
            out.push(o[0] ^ OCTET_XOR);
            out.push(o[1] ^ OCTET_XOR);
            out.push(o[2] ^ OCTET_XOR);
            out.push(o[3] ^ OCTET_XOR);
        },
        IpAddress::V6(_) => {
            let mut i: usize = 0;
            while i < 16
                invariant
                    0 <= i <= 16,
                    out@ == old(out)@ + seq![0u8, 1u8] + u16_bytes(addr.port ^ PORT_XOR)
                        + Seq::new(i as nat, |j: int| 0u8),
                decreases 16 - i,
            {
                out.push(0u8);
                i = i + 1;
                assert(out@ =~= old(out)@ + seq![0u8, 1u8] + u16_bytes(addr.port ^ PORT_XOR)
                    + Seq::new(i as nat, |j: int| 0u8));
            }
        },
    }
    assert(out@ =~= old(out)@ + xor_address_body(*addr));
}

/// Decoding an encoded IPv4 address gives the address back.
pub proof fn lemma_xor_v4_round_trip(addr: SocketAddress)
    requires
        addr.ip is V4,
    ensures
        xor_address_body(addr).len() == 8,
        decode_xor_v4(xor_address_body(addr)) == addr,
{
    let body = xor_address_body(addr);
    let p = addr.port ^ PORT_XOR;
    assert(be16((p / 256) as u8, (p % 256) as u8) == p);
    let port = addr.port;
    assert((port ^ 0x2112u16) ^ 0x2112u16 == port) by (bit_vector);
    if let IpAddress::V4(o) = addr.ip {
        assert forall|i: int| 0 <= i < 4 implies #[trigger] o[i] ^ OCTET_XOR ^ OCTET_XOR == o[i] by {
            let b = o[i];
            assert(b ^ 0x21u8 ^ 0x21u8 == b) by (bit_vector);
        }
        let d = decode_xor_v4(body);
        assert(body[2] == (p / 256) as u8 && body[3] == (p % 256) as u8);
        assert(d.port == addr.port);
        if let IpAddress::V4(q) = d.ip {
            assert(q@ =~= o@);
            assert(q == o);
        }
        assert(d.ip == addr.ip);
    }
}

} // verus!
