use audiocloud::ids::AppTaskId;
use audiocloud::security::{DomainError, KeyPermissions, TaskPermissions, TaskSecurity};
use audiocloud::sockets::{
    best_socket, ClientSocketId, DomainClientMessage, ReceiveOutcome, ResponseMedia, SocketKind, SocketsOpts,
    SocketsSupervisor, SupervisedSocket, WebRtcOpts,
};

fn opts() -> SocketsOpts {
    SocketsOpts {
        web_rtc: WebRtcOpts {
            enable_web_rtc: true,
            ice_servers: vec!["stun:a".to_string(), "stun:b".to_string()],
            web_rtc_port_min: 1000,
            web_rtc_port_max: 2000,
            web_rtc_max_retransmits: 3,
            web_rtc_use_native_ordering: false,
        },
        packet_cache_max_retention_ms: 1000,
        socket_drop_timeout: 5000,
        socket_init_timeout: 2000,
        socket_ping_interval: 1000,
    }
}

fn socket(id: &str, kind: SocketKind, last_pong_at: i64) -> SupervisedSocket {
    SupervisedSocket { id: id.to_string(), kind, connected: true, last_pong_at, init_complete: true, init_changed_at: 0 }
}

fn task() -> AppTaskId {
    AppTaskId::new("app".to_string(), "t".to_string())
}

fn from(client: &str, socket: &str) -> ClientSocketId {
    ClientSocketId { client_id: client.to_string(), socket_id: socket.to_string() }
}

fn audio() -> TaskPermissions {
    TaskPermissions { structure: false, media: false, parameters: false, transport: false, audio: true }
}

#[test]
fn ice_servers_one_url_each() {
    let servers = opts().web_rtc.get_ice_servers();
    assert_eq!(servers.len(), 2);
    assert_eq!(servers[0].urls, vec!["stun:a".to_string()]);
    assert_eq!(servers[1].urls, vec!["stun:b".to_string()]);
}

#[test]
fn socket_validity_and_score() {
    let s = socket("s", SocketKind::WebRtc, 1000);
    assert!(s.is_valid(5999, 5000));
    assert!(!s.is_valid(6000, 5000));
    assert_eq!(s.score(), 10);
    assert_eq!(socket("w", SocketKind::WebSocket, 0).score(), 1);
}

#[test]
fn best_socket_prefers_websocket() {
    let sockets = vec![socket("rtc", SocketKind::WebRtc, 0), socket("ws", SocketKind::WebSocket, 0)];
    assert_eq!(best_socket(&sockets, 10, 5000), Some(1));
    let stale = vec![socket("rtc", SocketKind::WebRtc, 0), socket("ws", SocketKind::WebSocket, -10_000)];
    assert_eq!(best_socket(&stale, 10, 5000), Some(0));
    assert_eq!(best_socket(&stale, 100_000, 5000), None);
}

#[test]
fn attach_then_publish_packets() {
    let mut sup = SocketsSupervisor::new(opts());
    sup.register_socket("c1".to_string(), socket("s1", SocketKind::WebRtc, 0));
    sup.register_socket("c1".to_string(), socket("s2", SocketKind::WebSocket, 0));
    sup.register_socket("c2".to_string(), socket("s3", SocketKind::WebSocket, 0));
    sup.set_task_security(task(), TaskSecurity { security: vec![KeyPermissions { secure_key: "k".to_string(), permissions: audio() }] });

    let out = sup.on_socket_message_received::<()>(
        &from("c1", "s1"),
        Some(DomainClientMessage::RequestAttachToTask { request_id: "r".to_string(), task_id: task(), secure_key: "k".to_string() }),
        false,
        10,
    );
    assert!(matches!(out, ReceiveOutcome::Attached));
    let out = sup.on_socket_message_received::<()>(
        &from("c2", "s3"),
        Some(DomainClientMessage::RequestAttachToTask { request_id: "r".to_string(), task_id: task(), secure_key: "bad".to_string() }),
        true,
        10,
    );
    assert!(matches!(out, ReceiveOutcome::Attached));

    assert!(sup.client_can_on_task(&sup.clients[0], &task(), audio()));
    assert!(!sup.client_can_on_task(&sup.clients[1], &task(), audio()));
    let recipients = sup.publish_streaming_packet(&task(), 100);
    assert_eq!(recipients.len(), 1);
    assert_eq!(recipients[0].client_id, "c1");
    assert_eq!(recipients[0].socket_id, "s2");

    let out = sup.on_socket_message_received::<()>(
        &from("c1", "s2"),
        Some(DomainClientMessage::RequestDetachFromTask { request_id: "r".to_string(), task_id: task() }),
        false,
        20,
    );
    assert!(matches!(out, ReceiveOutcome::Detached));
    assert_eq!(sup.members.len(), 2);
    assert_eq!(sup.publish_streaming_packet(&task(), 100).len(), 1);

    let out = sup.on_socket_message_received::<()>(
        &from("c1", "s1"),
        Some(DomainClientMessage::RequestDetachFromTask { request_id: "r".to_string(), task_id: task() }),
        false,
        20,
    );
    assert!(matches!(out, ReceiveOutcome::Detached));
    assert_eq!(sup.members.len(), 1);
    assert_eq!(sup.members[0].socket.client_id, "c2");
    assert!(sup.publish_streaming_packet(&task(), 100).is_empty());
}

fn attach(sup: &mut SocketsSupervisor, client: &str, socket: &str, key: &str) {
    let out = sup.on_socket_message_received::<()>(
        &from(client, socket),
        Some(DomainClientMessage::RequestAttachToTask { request_id: "r".to_string(), task_id: task(), secure_key: key.to_string() }),
        false,
        10,
    );
    assert!(matches!(out, ReceiveOutcome::Attached));
}

#[test]
fn sockets_hold_their_memberships_independently() {
    let mut sup = SocketsSupervisor::new(opts());
    sup.register_socket("c1".to_string(), socket("s1", SocketKind::WebSocket, 0));
    sup.register_socket("c1".to_string(), socket("s2", SocketKind::WebSocket, 0));
    attach(&mut sup, "c1", "s1", "k1");
    attach(&mut sup, "c1", "s1", "k2");
    attach(&mut sup, "c1", "s1", "k1");
    attach(&mut sup, "c1", "s2", "k1");
    assert_eq!(sup.members.len(), 3);
    assert_eq!(sup.members[0].secure_key, "k1");
    assert_eq!(sup.members[1].secure_key, "k2");
    assert_eq!(sup.members[2].socket.socket_id, "s2");

    let out = sup.on_socket_message_received::<()>(
        &from("c1", "s1"),
        Some(DomainClientMessage::RequestDetachFromTask { request_id: "r".to_string(), task_id: task() }),
        false,
        20,
    );
    assert!(matches!(out, ReceiveOutcome::Detached));
    assert_eq!(sup.members.len(), 1);
    assert_eq!(sup.members[0].socket.socket_id, "s2");
    assert_eq!(sup.members[0].secure_key, "k1");
}

#[test]
fn only_a_key_with_audio_lets_a_client_hear() {
    let mut sup = SocketsSupervisor::new(opts());
    sup.register_socket("c1".to_string(), socket("s1", SocketKind::WebSocket, 0));
    let none = TaskPermissions { structure: true, media: false, parameters: false, transport: false, audio: false };
    sup.set_task_security(
        task(),
        TaskSecurity {
            security: vec![
                KeyPermissions { secure_key: "mute".to_string(), permissions: none },
                KeyPermissions { secure_key: "loud".to_string(), permissions: audio() },
            ],
        },
    );
    attach(&mut sup, "c1", "s1", "mute");
    assert!(!sup.client_can_on_task(&sup.clients[0], &task(), audio()));
    attach(&mut sup, "c1", "s1", "loud");
    assert!(sup.client_can_on_task(&sup.clients[0], &task(), audio()));
}

#[test]
fn messages_from_unknown_or_broken_sockets() {
    let mut sup = SocketsSupervisor::new(opts());
    sup.register_socket("c1".to_string(), socket("s1", SocketKind::WebSocket, 0));
    sup.register_socket("c1".to_string(), socket("s2", SocketKind::WebSocket, 0));
    let out = sup.on_socket_message_received::<()>(
        &from("c9", "s1"),
        Some(DomainClientMessage::Pong { challenge: "x".to_string(), response: "y".to_string() }),
        false,
        5,
    );
    assert!(matches!(out, ReceiveOutcome::UnknownSocket));
    let out = sup.on_socket_message_received::<()>(&from("c1", "s1"), None, false, 5);
    assert!(matches!(out, ReceiveOutcome::DroppedSocket));
    assert_eq!(sup.clients[0].sockets.len(), 1);
    assert_eq!(sup.clients[0].sockets[0].id, "s2");
}

#[test]
fn pong_refreshes_socket() {
    let mut sup = SocketsSupervisor::new(opts());
    sup.register_socket("c1".to_string(), socket("s1", SocketKind::WebSocket, 0));
    let out = sup.on_socket_message_received::<()>(
        &from("c1", "s1"),
        Some(DomainClientMessage::Pong { challenge: "x".to_string(), response: "y".to_string() }),
        false,
        4000,
    );
    assert!(matches!(out, ReceiveOutcome::Ponged));
    assert_eq!(sup.clients[0].sockets[0].last_pong_at, 4000);
}

#[test]
fn requests_are_forwarded_with_reply_media() {
    let mut sup = SocketsSupervisor::new(opts());
    sup.register_socket("c1".to_string(), socket("s1", SocketKind::WebSocket, 0));
    let out = sup.on_socket_message_received(
        &from("c1", "s1"),
        Some(DomainClientMessage::RequestModifyTaskSpec { request_id: "r1".to_string(), task_id: task(), modify_spec: 42u32, revision: 7 }),
        true,
        5,
    );
    match out {
        ReceiveOutcome::ModifyTaskSpec { reply_to, request_id, modify_spec, revision, media, .. } => {
            assert_eq!(reply_to.socket_id, "s1");
            assert_eq!(request_id, "r1");
            assert_eq!(modify_spec, 42);
            assert_eq!(revision, 7);
            assert_eq!(media, ResponseMedia::Json);
        },
        other => panic!("unexpected {:?}", other),
    }
    let out = sup.on_socket_message_received::<()>(
        &from("c1", "s1"),
        Some(DomainClientMessage::SubmitPeerConnectionCandidate {
            request_id: "r2".to_string(),
            socket_id: "s1".to_string(),
            candidate: "cand".to_string(),
        }),
        false,
        5,
    );
    match out {
        ReceiveOutcome::RejectIceCandidate { error: DomainError::SocketNotFound { socket_id }, media, .. } => {
            assert_eq!(socket_id, "s1");
            assert_eq!(media, ResponseMedia::Json);
        },
        other => panic!("unexpected {:?}", other),
    }
}

#[test]
fn ice_candidates_go_to_webrtc_sockets() {
    let mut sup = SocketsSupervisor::new(opts());
    sup.register_socket("c1".to_string(), socket("ws", SocketKind::WebSocket, 0));
    sup.register_socket("c1".to_string(), socket("rtc", SocketKind::WebRtc, 0));
    let out = sup.on_socket_message_received::<()>(
        &from("c1", "ws"),
        Some(DomainClientMessage::SubmitPeerConnectionCandidate {
            request_id: "r".to_string(),
            socket_id: "rtc".to_string(),
            candidate: "cand".to_string(),
        }),
        false,
        5,
    );
    match out {
        ReceiveOutcome::ForwardIceCandidate { rtc_socket, candidate } => {
            assert_eq!(rtc_socket.socket_id, "rtc");
            assert_eq!(candidate, "cand");
        },
        other => panic!("unexpected {:?}", other),
    }
}

#[test]
fn stale_sockets_are_cleaned_and_pinged_with_fresh_challenges() {
    let mut sup = SocketsSupervisor::new(opts());
    sup.register_socket("c1".to_string(), socket("old", SocketKind::WebSocket, 0));
    sup.register_socket("c1".to_string(), socket("fresh", SocketKind::WebSocket, 9000));
    let mut uninit = socket("uninit", SocketKind::WebRtc, 9000);
    uninit.init_complete = false;
    sup.register_socket("c2".to_string(), uninit);
    sup.cleanup_stale_sockets(10_000);
    assert_eq!(sup.clients[0].sockets.len(), 1);
    assert_eq!(sup.clients[0].sockets[0].id, "fresh");
    assert!(sup.clients[1].sockets.is_empty());
    let pings = sup.ping_active_sockets(10_000);
    assert_eq!(pings.len(), 1);
    assert_eq!(pings[0].target.socket_id, "fresh");
    assert_eq!(pings[0].challenge.chars().count(), 21);
    assert!(pings[0].challenge.chars().all(|c| c.is_ascii_alphanumeric() || c == '_' || c == '-'));
    assert_eq!(sup.clients.len(), 1);
    let again = sup.ping_active_sockets(10_000);
    assert_ne!(again[0].challenge, pings[0].challenge);
}

#[test]
fn messages_find_their_socket() {
    let mut sup = SocketsSupervisor::new(opts());
    sup.register_socket("c1".to_string(), socket("s1", SocketKind::WebSocket, 0));
    sup.register_socket("c2".to_string(), socket("s2", SocketKind::WebSocket, 0));
    sup.register_socket("c2".to_string(), socket("s3", SocketKind::WebRtc, 0));
    assert_eq!(sup.locate_socket(&from("c2", "s3")), Some((1, 1)));
    assert_eq!(sup.locate_socket(&from("c1", "s1")), Some((0, 0)));
    assert_eq!(sup.locate_socket(&from("c1", "s3")), None);
    assert_eq!(sup.locate_socket(&from("c9", "s1")), None);
}

#[test]
fn attach_then_detach_restores_memberships() {
    let mut sup = SocketsSupervisor::new(opts());
    sup.register_socket("c1".to_string(), socket("s1", SocketKind::WebSocket, 0));
    sup.register_socket("c2".to_string(), socket("s2", SocketKind::WebSocket, 0));
    attach(&mut sup, "c2", "s2", "k");
    let before: Vec<(String, String)> =
        sup.members.iter().map(|m| (m.socket.socket_id.clone(), m.secure_key.clone())).collect();
    attach(&mut sup, "c1", "s1", "k1");
    assert_eq!(sup.members.len(), 2);
    let out = sup.on_socket_message_received::<()>(
        &from("c1", "s1"),
        Some(DomainClientMessage::RequestDetachFromTask { request_id: "r".to_string(), task_id: task() }),
        false,
        20,
    );
    assert!(matches!(out, ReceiveOutcome::Detached));
    let after: Vec<(String, String)> =
        sup.members.iter().map(|m| (m.socket.socket_id.clone(), m.secure_key.clone())).collect();
    assert_eq!(after, before);
}
