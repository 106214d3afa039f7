use cam2webrtc::room::{Room, RoomManager};
use cam2webrtc::signaling::{Payload, SignalingMessage, SignalingMessageType};

fn json(text: &str) -> serde_json::Value {
    serde_json::from_str(text).unwrap()
}

fn join(m: &mut RoomManager, room: &str, id: &str, is_sender: bool) -> Vec<SignalingMessage> {
    m.handle_message(room.to_string(), SignalingMessage::new_join(id.to_string(), is_sender)).unwrap()
}

fn target(msg: &SignalingMessage) -> &str {
    msg.connection_id.as_deref().unwrap()
}

fn manager_with_room(room: &str) -> RoomManager {
    let mut m = RoomManager::new();
    m.create_room(room.to_string());
    m
}

fn broadcast_offer(sender: &str) -> SignalingMessage {
    SignalingMessage {
        message_type: SignalingMessageType::Offer,
        connection_id: None,
        source_sender_id: None,
        sender_id: Some(sender.to_string()),
        offer_id: None,
        data: Some(Payload::Json(json(r#"{"sdp":"v=0"}"#))),
        is_sender: Some(true),
    }
}

#[test]
fn two_peer_handshake() {
    let mut m = manager_with_room("R");
    let out = join(&mut m, "R", "S", true);
    assert_eq!(out.len(), 1);
    assert_eq!(out[0].message_type, SignalingMessageType::RoomInfo);
    assert_eq!(target(&out[0]), "S");
    match out[0].data.as_ref().unwrap() {
        Payload::RoomInfo { room_id, mode, connection_count, peers } => {
            assert_eq!(room_id, "R");
            assert_eq!(mode, "1onN");
            assert_eq!(*connection_count, 1);
            assert!(peers.is_empty());
        }
        other => panic!("unexpected payload {:?}", other),
    }

    let out = join(&mut m, "R", "V", false);
    assert_eq!(out.len(), 2);
    assert_eq!(out[0].message_type, SignalingMessageType::RoomInfo);
    assert_eq!(target(&out[0]), "V");
    match out[0].data.as_ref().unwrap() {
        Payload::RoomInfo { connection_count, peers, .. } => {
            assert_eq!(*connection_count, 2);
            assert_eq!(peers.len(), 1);
            assert_eq!(peers[0].id, "S");
            assert!(peers[0].is_sender);
        }
        other => panic!("unexpected payload {:?}", other),
    }
    assert_eq!(out[1].message_type, SignalingMessageType::NewPeer);
    assert_eq!(target(&out[1]), "S");
    match out[1].data.as_ref().unwrap() {
        Payload::NewPeer { connection_id, is_sender, connection_count } => {
            assert_eq!(connection_id, "V");
            assert!(!*is_sender);
            assert_eq!(*connection_count, 2);
        }
        other => panic!("unexpected payload {:?}", other),
    }
}

#[test]
fn duplicate_sender_rejected() {
    let mut m = manager_with_room("R");
    join(&mut m, "R", "S", true);
    join(&mut m, "R", "V", false);
    let out = join(&mut m, "R", "S2", true);
    assert_eq!(out.len(), 1);
    assert_eq!(out[0].message_type, SignalingMessageType::Error);
    assert_eq!(target(&out[0]), "S2");
    match out[0].data.as_ref().unwrap() {
        Payload::Error { error } => assert_eq!(error, "Sender already exists in this room"),
        other => panic!("unexpected payload {:?}", other),
    }
    let room = &m.rooms[0];
    assert_eq!(room.get_connection_count(), 2);
    assert_eq!(room.connections[0].id, "S");
    assert_eq!(room.connections[1].id, "V");
}

#[test]
fn targeted_offer_is_relayed_verbatim() {
    let mut m = manager_with_room("R");
    join(&mut m, "R", "S", true);
    join(&mut m, "R", "V", false);
    let offer = SignalingMessage::new_offer("V".to_string(), "S".to_string(), json(r#"{"sdp":"x"}"#));
    let out = m.handle_message("R".to_string(), offer).unwrap();
    assert_eq!(out.len(), 1);
    assert_eq!(out[0].message_type, SignalingMessageType::Offer);
    assert_eq!(target(&out[0]), "V");
    assert_eq!(out[0].sender_id.as_deref(), Some("S"));
    assert_eq!(out[0].offer_id, None);
    assert_eq!(out[0].is_sender, Some(true));
    match out[0].data.as_ref().unwrap() {
        Payload::Json(v) => assert_eq!(*v, json(r#"{"sdp":"x"}"#)),
        other => panic!("unexpected payload {:?}", other),
    }
    assert!(m.rooms[0].offers.is_empty());
}

#[test]
fn broadcast_offer_is_cached_and_replayed() {
    let mut m = manager_with_room("R");
    join(&mut m, "R", "V1", false);
    join(&mut m, "R", "V2", false);
    let out = m.handle_message("R".to_string(), broadcast_offer("P")).unwrap();
    assert_eq!(out.len(), 2);
    assert_eq!(target(&out[0]), "V1");
    assert_eq!(target(&out[1]), "V2");
    let minted = out[0].offer_id.clone().unwrap();
    assert!(!minted.is_empty());
    assert_eq!(out[1].offer_id.as_deref(), Some(minted.as_str()));
    assert_eq!(out[0].sender_id.as_deref(), Some("P"));

    let out = join(&mut m, "R", "V3", false);
    let offers: Vec<&SignalingMessage> =
        out.iter().filter(|e| e.message_type == SignalingMessageType::Offer).collect();
    assert_eq!(offers.len(), 1);
    assert_eq!(target(offers[0]), "V3");
    assert_eq!(offers[0].offer_id.as_deref(), Some(minted.as_str()));
    assert_eq!(offers[0].sender_id.as_deref(), Some("P"));
    assert_eq!(out.len(), 1 + 2 + 1);
}

#[test]
fn broadcast_offer_with_given_id() {
    let mut m = manager_with_room("R");
    join(&mut m, "R", "S", true);
    join(&mut m, "R", "V", false);
    let out = m
        .handle_message_with_offer_id("R".to_string(), broadcast_offer("S"), "offer-1".to_string())
        .unwrap();
    assert_eq!(out.len(), 1);
    assert_eq!(target(&out[0]), "V");
    assert_eq!(out[0].offer_id.as_deref(), Some("offer-1"));
    assert_eq!(m.rooms[0].offers.len(), 1);
    assert_eq!(m.rooms[0].offers[0].offer_id.as_deref(), Some("offer-1"));
    let cached = m.rooms[0].get_offers_for_viewer();
    assert_eq!(cached.len(), 1);
}

#[test]
fn inference_fan_out_and_persistence() {
    let mut m = manager_with_room("R");
    join(&mut m, "R", "S", true);
    join(&mut m, "R", "V1", false);
    join(&mut m, "R", "V2", false);
    let boxes = json(r#"{"boxes":[[1,2,3,4]]}"#);
    let msg = SignalingMessage {
        message_type: SignalingMessageType::InferenceResult,
        connection_id: Some("S".to_string()),
        source_sender_id: Some("S".to_string()),
        sender_id: None,
        offer_id: None,
        data: Some(Payload::Json(boxes.clone())),
        is_sender: None,
    };
    let out = m.handle_message("R".to_string(), msg).unwrap();
    assert_eq!(out.len(), 3);
    let targets: Vec<&str> = out.iter().map(target).collect();
    assert_eq!(targets, vec!["S", "V1", "V2"]);
    for e in &out {
        assert_eq!(e.message_type, SignalingMessageType::InferenceUpdate);
        match e.data.as_ref().unwrap() {
            Payload::InferenceUpdate { source_sender_id, latest } => {
                assert_eq!(source_sender_id, "S");
                assert_eq!(latest.as_ref(), Some(&boxes));
            }
            other => panic!("unexpected payload {:?}", other),
        }
    }
    assert_eq!(m.inference_db.len(), 1);
    assert_eq!(m.inference_db[0].payload, boxes);
    let queued = m.take_persistence_requests();
    assert_eq!(queued.len(), 1);
    assert_eq!(queued[0].room_id, "R");
    assert_eq!(queued[0].source_sender_id, "S");
    assert_eq!(queued[0].payload, boxes);
    assert!(m.take_persistence_requests().is_empty());
}

#[test]
fn inference_overwrites_latest() {
    let mut m = manager_with_room("R");
    join(&mut m, "R", "V", false);
    for text in [r#"{"n":1}"#, r#"{"n":2}"#] {
        let msg = SignalingMessage {
            message_type: SignalingMessageType::InferenceResult,
            connection_id: None,
            source_sender_id: Some("S".to_string()),
            sender_id: None,
            offer_id: None,
            data: Some(Payload::Json(json(text))),
            is_sender: None,
        };
        m.handle_message("R".to_string(), msg).unwrap();
    }
    assert_eq!(m.inference_db.len(), 1);
    assert_eq!(m.inference_db[0].payload, json(r#"{"n":2}"#));
    assert_eq!(m.take_persistence_requests().len(), 2);
}

#[test]
fn inference_without_source_is_dropped() {
    let mut m = manager_with_room("R");
    join(&mut m, "R", "V", false);
    let msg = SignalingMessage {
        message_type: SignalingMessageType::InferenceResult,
        connection_id: None,
        source_sender_id: None,
        sender_id: None,
        offer_id: None,
        data: Some(Payload::Json(json("1"))),
        is_sender: None,
    };
    assert!(m.handle_message("R".to_string(), msg).is_none());
    assert!(m.inference_db.is_empty());
}

#[test]
fn disconnect_cleanup() {
    let mut m = manager_with_room("R");
    join(&mut m, "R", "S", true);
    join(&mut m, "R", "V1", false);
    join(&mut m, "R", "V2", false);
    m.handle_message_with_offer_id("R".to_string(), broadcast_offer("S"), "o1".to_string()).unwrap();
    m.handle_message_with_offer_id("R".to_string(), broadcast_offer("X"), "o2".to_string()).unwrap();
    assert_eq!(m.rooms[0].offers.len(), 2);
    let out = m.remove_connection("R", "S").unwrap();
    assert_eq!(out.len(), 2);
    assert_eq!(target(&out[0]), "V1");
    assert_eq!(target(&out[1]), "V2");
    for e in &out {
        assert_eq!(e.message_type, SignalingMessageType::Leave);
        match e.data.as_ref().unwrap() {
            Payload::Leave { connection_id, connection_count } => {
                assert_eq!(connection_id, "S");
                assert_eq!(*connection_count, 2);
            }
            other => panic!("unexpected payload {:?}", other),
        }
    }
    assert_eq!(m.rooms[0].offers.len(), 1);
    assert_eq!(m.rooms[0].offers[0].offer_id.as_deref(), Some("o2"));
    // The seat of the sender is free again.
    let out = join(&mut m, "R", "S2", true);
    assert_eq!(out[0].message_type, SignalingMessageType::RoomInfo);
}

#[test]
fn unknown_room_gives_nothing() {
    let mut m = RoomManager::new();
    assert!(m.handle_message("nowhere".to_string(), SignalingMessage::new_join("A".to_string(), false)).is_none());
    assert!(m.remove_connection("nowhere", "A").is_none());
}

#[test]
fn create_room_is_idempotent() {
    let mut m = manager_with_room("R");
    join(&mut m, "R", "A", false);
    m.create_room("R".to_string());
    assert_eq!(m.rooms.len(), 1);
    assert_eq!(m.rooms[0].get_connection_count(), 1);
}

#[test]
fn join_without_role_is_dropped() {
    let mut m = manager_with_room("R");
    let mut msg = SignalingMessage::new_join("A".to_string(), false);
    msg.is_sender = None;
    assert!(m.handle_message("R".to_string(), msg).is_none());
    let mut msg = SignalingMessage::new_join("A".to_string(), false);
    msg.connection_id = None;
    assert!(m.handle_message("R".to_string(), msg).is_none());
    assert_eq!(m.rooms[0].get_connection_count(), 0);
}

#[test]
fn answer_is_forwarded_and_ice_fans_out_to_viewers() {
    let mut m = manager_with_room("R");
    join(&mut m, "R", "S", true);
    join(&mut m, "R", "V1", false);
    join(&mut m, "R", "V2", false);
    let answer = SignalingMessage::new_answer("S".to_string(), "V1".to_string(), json(r#"{"sdp":"a"}"#));
    let out = m.handle_message("R".to_string(), answer).unwrap();
    assert_eq!(out.len(), 1);
    assert_eq!(target(&out[0]), "S");
    assert_eq!(out[0].message_type, SignalingMessageType::Answer);

    let mut ice = SignalingMessage::new_ice_candidate("x".to_string(), "S".to_string(), json(r#"{"candidate":"c"}"#));
    ice.connection_id = None;
    let out = m.handle_message("R".to_string(), ice).unwrap();
    let targets: Vec<&str> = out.iter().map(target).collect();
    assert_eq!(targets, vec!["V1", "V2"]);
    assert!(out.iter().all(|e| e.message_type == SignalingMessageType::IceCandidate));
    assert!(out.iter().all(|e| e.sender_id.as_deref() == Some("S")));
}

#[test]
fn other_kinds_get_no_answer() {
    let mut m = manager_with_room("R");
    join(&mut m, "R", "A", false);
    let mut msg = SignalingMessage::new_join("A".to_string(), false);
    msg.message_type = SignalingMessageType::Leave;
    assert!(m.handle_message("R".to_string(), msg).is_none());
}

#[test]
fn rejoin_replaces_the_connection() {
    let mut m = manager_with_room("R");
    join(&mut m, "R", "A", true);
    join(&mut m, "R", "B", false);
    let out = join(&mut m, "R", "A", false);
    assert_eq!(m.rooms[0].get_connection_count(), 2);
    assert!(!m.rooms[0].connections[0].is_sender);
    assert_eq!(out.len(), 2);
    assert_eq!(target(&out[1]), "B");
}

#[test]
fn room_level_operations() {
    let mut r = Room::new("R".to_string());
    assert!(r.add_connection("S".to_string(), true).unwrap().is_empty());
    assert_eq!(r.add_connection("T".to_string(), true).unwrap_err(), "Sender already exists in this room");
    assert!(r.add_offer(broadcast_offer("S")).is_ok());
    assert_eq!(r.offers.len(), 1);
    assert!(r.offers[0].offer_id.is_some());
    r.remove_connection("S");
    assert_eq!(r.get_connection_count(), 0);
    assert!(r.offers.is_empty());
}

#[test]
fn error_envelope_constructor() {
    let e = SignalingMessage::new_error("A".to_string(), "boom".to_string());
    assert_eq!(e.message_type, SignalingMessageType::Error);
    assert_eq!(e.connection_id.as_deref(), Some("A"));
    match e.data.unwrap() {
        Payload::Error { error } => assert_eq!(error, "boom"),
        other => panic!("unexpected payload {:?}", other),
    }
}
