use cam2webrtc::stun::handle_stun_packet;
use cam2webrtc::turn::{relay_intent, TurnState, RELAY_PORT_MAX, RELAY_PORT_MIN};
use cam2webrtc::wire::{IpAddress, SocketAddress};

fn request(kind: u16, body: &[u8]) -> Vec<u8> {
    let mut p = Vec::new();
    p.extend_from_slice(&kind.to_be_bytes());
    p.extend_from_slice(&(body.len() as u16).to_be_bytes());
    p.extend_from_slice(&[0x21, 0x12, 0xA4, 0x42]);
    p.extend_from_slice(&[1, 2, 3, 4, 5, 6, 7, 8, 9, 10, 11, 12]);
    p.extend_from_slice(body);
    p
}

fn v4(a: u8, b: u8, c: u8, d: u8, port: u16) -> SocketAddress {
    SocketAddress { ip: IpAddress::V4([a, b, c, d]), port }
}

fn decode_v4(value: &[u8]) -> ([u8; 4], u16) {
    let port = u16::from_be_bytes([value[2], value[3]]) ^ 0x2112;
    let ip = [value[4] ^ 0x21, value[5] ^ 0x21, value[6] ^ 0x21, value[7] ^ 0x21];
    (ip, port)
}

#[test]
fn stun_binding() {
    let req = request(0x0001, &[]);
    let resp = handle_stun_packet(&req, &v4(192, 0, 2, 5, 41234)).unwrap();
    assert_eq!(resp.len(), 32);
    assert_eq!(&resp[0..2], &[0x01, 0x01]);
    assert_eq!(&resp[2..4], &[0x00, 0x0c]);
    assert_eq!(&resp[4..20], &req[4..20]);
    assert_eq!(&resp[20..22], &[0x00, 0x20]);
    assert_eq!(&resp[22..24], &[0x00, 0x08]);
    assert_eq!(&resp[24..26], &[0x00, 0x01]);
    assert_eq!(decode_v4(&resp[24..32]), ([192, 0, 2, 5], 41234));
    assert_eq!(&resp[26..28], &(41234u16 ^ 0x2112).to_be_bytes());
}

#[test]
fn stun_transaction_id_is_echoed() {
    let mut req = request(0x0001, &[]);
    req[8..20].copy_from_slice(b"abcdefghijkl");
    let resp = handle_stun_packet(&req, &v4(10, 0, 0, 1, 1)).unwrap();
    assert_eq!(&resp[8..20], b"abcdefghijkl");
}

#[test]
fn stun_ipv6_source_is_stubbed() {
    let req = request(0x0001, &[]);
    let src = SocketAddress { ip: IpAddress::V6([1; 16]), port: 5 };
    let resp = handle_stun_packet(&req, &src).unwrap();
    assert_eq!(resp.len(), 20 + 4 + 4 + 16);
    assert!(resp[28..].iter().all(|b| *b == 0));
}

#[test]
fn stun_other_type_gets_bad_request() {
    let req = request(0x0002, &[]);
    let resp = handle_stun_packet(&req, &v4(10, 0, 0, 1, 1)).unwrap();
    assert_eq!(&resp[0..2], &[0x01, 0x11]);
    assert_eq!(&resp[4..20], &req[4..20]);
    assert_eq!(&resp[20..22], &[0x00, 0x09]);
    assert_eq!(&resp[22..24], &[0x00, 0x0f]);
    assert_eq!(&resp[24..28], &[0, 0, 4, 0]);
    assert_eq!(&resp[28..39], b"Bad Request");
    assert_eq!(resp.len(), 40);
    assert_eq!(u16::from_be_bytes([resp[2], resp[3]]) as usize, resp.len() - 20);
}

#[test]
fn stun_badly_framed_is_dropped() {
    assert!(handle_stun_packet(&[0u8; 19], &v4(1, 1, 1, 1, 1)).is_none());
    let mut req = request(0x0001, &[]);
    req.push(0);
    assert!(handle_stun_packet(&req, &v4(1, 1, 1, 1, 1)).is_none());
    let mut req = request(0x0001, &[0, 0, 0, 0]);
    req[3] = 8;
    assert!(handle_stun_packet(&req, &v4(1, 1, 1, 1, 1)).is_none());
}

#[test]
fn turn_allocate() {
    let mut t = TurnState::new();
    let req = request(0x0003, &[]);
    let client = v4(198, 51, 100, 7, 5000);
    let resp = t.handle_turn_packet(&req, &client).unwrap();
    assert_eq!(resp.len(), 20 + 12 + 8);
    assert_eq!(&resp[0..2], &[0x01, 0x03]);
    assert_eq!(&resp[2..4], &[0x00, 20]);
    assert_eq!(&resp[4..20], &req[4..20]);
    assert_eq!(&resp[20..24], &[0x00, 0x16, 0x00, 0x08]);
    assert_eq!(decode_v4(&resp[24..32]), ([198, 51, 100, 7], 49152));
    assert_eq!(&resp[32..36], &[0x00, 0x0d, 0x00, 0x04]);
    assert_eq!(u32::from_be_bytes([resp[36], resp[37], resp[38], resp[39]]), 600);
    assert_eq!(t.allocations.len(), 1);
    assert_eq!(t.allocations[0].relayed_addr.port, 49152);
    assert_eq!(t.relay_ports.len(), 1);
    assert_eq!(t.relay_ports[0].port, 49152);
    assert_eq!(t.relay_ports[0].allocation_id, t.allocations[0].id);
    assert_eq!(t.next_relay_port, 49153);

    let resp = t.handle_turn_packet(&req, &client).unwrap();
    assert_eq!(decode_v4(&resp[24..32]).1, 49153);
    assert_eq!(t.allocations.len(), 2);
}

#[test]
fn turn_allocate_with_given_id_and_time() {
    let mut t = TurnState::new();
    let req = request(0x0003, &[]);
    t.handle_turn_packet_with(&req, &v4(1, 2, 3, 4, 9), "a1".to_string(), 1_000).unwrap();
    assert_eq!(t.allocations[0].id, "a1");
    assert_eq!(t.allocations[0].lifetime, 601_000);
    assert!(t.allocations[0].peer_addr.is_none());
    assert!(t.allocations[0].permissions.is_empty());
    t.handle_turn_packet_with(&req, &v4(1, 2, 3, 4, 9), "a2".to_string(), i64::MAX - 5).unwrap();
    assert_eq!(t.allocations[1].lifetime, i64::MAX);
}

#[test]
fn relay_ports_wrap() {
    let mut t = TurnState::new();
    t.next_relay_port = RELAY_PORT_MAX;
    assert_eq!(t.get_next_relay_port(), 65535);
    assert_eq!(t.next_relay_port, RELAY_PORT_MIN);
    assert_eq!(t.get_next_relay_port(), 49152);
}

#[test]
fn turn_other_type_gets_error() {
    let mut t = TurnState::new();
    let req = request(0x0009, &[]);
    let resp = t.handle_turn_packet(&req, &v4(1, 2, 3, 4, 9)).unwrap();
    assert_eq!(&resp[0..2], &[0x01, 0x13]);
    assert_eq!(&resp[20..22], &[0x00, 0x09]);
    assert!(t.allocations.is_empty());
}

#[test]
fn send_indication_is_parsed_not_answered() {
    let mut body = Vec::new();
    body.extend_from_slice(&[0x00, 0x12, 0x00, 0x08, 0x00, 0x01]);
    body.extend_from_slice(&(6000u16 ^ 0x2112).to_be_bytes());
    body.extend_from_slice(&[10 ^ 0x21, 0 ^ 0x21, 0 ^ 0x21, 9 ^ 0x21]);
    body.extend_from_slice(&[0x00, 0x13, 0x00, 0x03, b'a', b'b', b'c', 0]);
    let req = request(0x0016, &body);
    let mut t = TurnState::new();
    assert!(t.handle_turn_packet(&req, &v4(1, 2, 3, 4, 9)).is_none());
    assert!(t.allocations.is_empty());
    let intent = relay_intent(&req).unwrap();
    assert_eq!(intent.data, b"abc".to_vec());
    assert_eq!(intent.peer_addr.port, 6000);
    match intent.peer_addr.ip {
        IpAddress::V4(o) => assert_eq!(o, [10, 0, 0, 9]),
        IpAddress::V6(_) => panic!("expected IPv4"),
    }
}

#[test]
fn send_indication_without_data_has_no_intent() {
    let mut body = Vec::new();
    body.extend_from_slice(&[0x00, 0x12, 0x00, 0x08, 0x00, 0x01, 0, 0, 0, 0, 0, 0]);
    let req = request(0x0016, &body);
    assert!(relay_intent(&req).is_none());
    assert!(relay_intent(&request(0x0003, &[])).is_none());
}
