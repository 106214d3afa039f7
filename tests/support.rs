use cam2webrtc::config::{Config, IceServerConfig};
use cam2webrtc::network::get_all_local_ips;
use cam2webrtc::signaling::SignalingServer;

#[test]
fn local_names() {
    assert_eq!(get_all_local_ips(None), vec!["localhost".to_string(), "127.0.0.1".to_string()]);
    assert_eq!(
        get_all_local_ips(Some("192.168.1.20".to_string())),
        vec!["localhost".to_string(), "127.0.0.1".to_string(), "192.168.1.20".to_string()]
    );
}

#[test]
fn ice_urls_are_rehosted() {
    let c = IceServerConfig {
        urls: vec![
            "stun:localhost:3478".to_string(),
            "turn:127.0.0.1:3479".to_string(),
            "stun:stun.example.org:3478".to_string(),
        ],
    };
    let r = c.with_host("192.168.1.20");
    assert_eq!(r.urls, vec![
        "stun:192.168.1.20:3478".to_string(),
        "turn:192.168.1.20:3479".to_string(),
        "stun:stun.example.org:3478".to_string(),
    ]);
}

#[test]
fn signaling_server_builds() {
    let _s = SignalingServer::new();
}

#[test]
fn config_is_rehosted_and_kept() {
    let c = Config {
        signaling_addr: "0.0.0.0:8080".to_string(),
        stun_addr: "0.0.0.0:3478".to_string(),
        turn_addr: "0.0.0.0:3479".to_string(),
        ice_servers: vec![
            IceServerConfig { urls: vec!["stun:localhost:3478".to_string()] },
            IceServerConfig { urls: vec!["turn:127.0.0.1:3479".to_string(), "turn:localhostx".to_string()] },
        ],
        video_constraints: serde_json::from_str(r#"{"width":{"ideal":1280}}"#).unwrap(),
        tls_enabled: true,
        tls_cert_path: "cert.pem".to_string(),
        tls_key_path: "key.pem".to_string(),
    };
    let r = c.with_host("10.1.2.3");
    assert_eq!(r.ice_servers[0].urls, vec!["stun:10.1.2.3:3478".to_string()]);
    assert_eq!(r.ice_servers[1].urls, vec!["turn:10.1.2.3:3479".to_string(), "turn:10.1.2.3x".to_string()]);
    assert_eq!(r.signaling_addr, "0.0.0.0:8080");
    assert_eq!(r.video_constraints, c.video_constraints);
    assert!(r.tls_enabled);
    assert_eq!(r.tls_key_path, "key.pem");
}
