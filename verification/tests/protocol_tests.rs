use kritor_agent::client::{
    classify_status, send_failure_status, send_response_from, prepare_send, RpcError,
    ServedStatusKind,
};
use kritor_agent::config::{BackendConfig, Config, SatoriConfig};
use kritor_agent::conn::{heartbeat_frame, identify_frame, ConnAction, ConnEvent, ConnManager, ConnState};
use kritor_agent::kritor::{Contact, KritorElement, Scene, Sender};
use kritor_agent::schema::{
    account_from_login, convert_event, Channel, ChannelType, Event, Login, Message, Status, User,
};
use kritor_agent::text::{parse_u64, u64_to_dec};
use kritor_agent::watch::Broadcaster;

fn empty_event() -> Event {
    Event {
        id: 0,
        _type: String::new(),
        platform: "test".to_string(),
        self_id: "1".to_string(),
        timestamp: 0,
        argv: None,
        button: None,
        channel: None,
        guild: None,
        login: None,
        member: None,
        message: None,
        operator: None,
        role: None,
        user: None,
    }
}

fn message_created_event() -> Event {
    let mut ev = empty_event();
    ev._type = "message-created".to_string();
    ev.timestamp = 1700000001234;
    ev.channel = Some(Channel {
        id: "private:10086".to_string(),
        _type: ChannelType::DIRECT,
        name: None,
        parent_id: None,
    });
    ev.user = Some(User {
        id: "10086".to_string(),
        name: Some("Alice".to_string()),
        nick: Some("alice".to_string()),
        avatar: None,
        is_bot: None,
    });
    ev.message = Some(Message {
        id: "m-1".to_string(),
        content: r#"hi <img src="https://a/b.png"/>"#.to_string(),
        channel: None,
        guild: None,
        member: None,
        user: None,
        created_at: Some(1700000001234),
        updated_at: None,
    });
    ev
}

#[test]
fn test_parse_u64_values() {
    assert_eq!(parse_u64("0"), Some(0));
    assert_eq!(parse_u64("+42"), Some(42));
    assert_eq!(parse_u64("10086"), Some(10086));
    assert_eq!(parse_u64("18446744073709551615"), Some(u64::MAX));
    assert_eq!(parse_u64("18446744073709551616"), None);
    assert_eq!(parse_u64(""), None);
    assert_eq!(parse_u64("+"), None);
    assert_eq!(parse_u64("12a"), None);
    assert_eq!(parse_u64("-1"), None);
}

#[test]
fn test_u64_to_dec_values() {
    assert_eq!(u64_to_dec(0), "0");
    assert_eq!(u64_to_dec(7), "7");
    assert_eq!(u64_to_dec(10086), "10086");
    assert_eq!(u64_to_dec(u64::MAX), "18446744073709551615");
}

#[test]
fn test_status_codes() {
    for code in 0u8..=4 {
        let s = Status::from_code(code).unwrap();
        assert_eq!(s.code(), code);
    }
    assert!(Status::from_code(5).is_none());
    assert_eq!(Status::from_code(1), Some(Status::ONLINE));
}

#[test]
fn test_channel_type_codes() {
    for code in 0u8..=3 {
        let t = ChannelType::from_code(code).unwrap();
        assert_eq!(t.code(), code);
    }
    assert!(ChannelType::from_code(4).is_none());
}

#[test]
fn test_channel_scene_and_peer() {
    let c = Channel {
        id: "private:10086".to_string(),
        _type: ChannelType::DIRECT,
        name: None,
        parent_id: None,
    };
    assert_eq!(c.scene(), Scene::Friend);
    assert_eq!(c.peer(), "10086");
    assert_eq!(c.into_peer(), "10086");

    let c = Channel {
        id: "g-777".to_string(),
        _type: ChannelType::TEXT,
        name: None,
        parent_id: None,
    };
    assert_eq!(c.scene(), Scene::Group);
    assert_eq!(c.peer(), "g-777");
    let contact = c.into_contact();
    assert_eq!(contact.scene, Scene::Group);
    assert_eq!(contact.peer, "g-777");
    assert!(contact.sub_peer.is_none());
}

#[test]
fn test_account_from_login() {
    let login = Login {
        user: Some(User {
            id: "10086".to_string(),
            name: Some("Alice".to_string()),
            nick: None,
            avatar: None,
            is_bot: None,
        }),
        self_id: None,
        platform: None,
        status: Status::ONLINE,
    };
    let acc = account_from_login(login);
    assert_eq!(acc.account_name, "Alice");
    assert_eq!(acc.account_uin, 10086);
    assert_eq!(acc.account_uid, "10086");

    let login = Login {
        user: None,
        self_id: Some("not-numeric".to_string()),
        platform: None,
        status: Status::OFFLINE,
    };
    let acc = account_from_login(login);
    assert_eq!(acc.account_name, "");
    assert_eq!(acc.account_uin, 0);
    assert_eq!(acc.account_uid, "not-numeric");
}

#[test]
fn test_convert_event_message_created() {
    let p = convert_event(message_created_event()).unwrap();
    assert_eq!(p.time, 1700000001);
    assert_eq!(p.scene, Scene::Friend);
    assert_eq!(p.message_id, "m-1");
    match p.sender.as_ref().unwrap() {
        Sender::Private { nick, uin, uid } => {
            assert_eq!(nick, "alice");
            assert_eq!(*uin, 10086);
            assert!(uid.is_none());
        }
        _ => panic!("expected a private sender"),
    }
    assert_eq!(p.elements.len(), 2);
    match &p.elements[0] {
        KritorElement::Text { text } => assert_eq!(text, "hi "),
        _ => panic!("expected a Text element"),
    }
}

#[test]
fn test_convert_event_rejects_other_types() {
    let mut ev = empty_event();
    ev._type = "guild-added".to_string();
    assert!(convert_event(ev).is_err());
    // message-created without a message record is rejected too
    let mut ev = empty_event();
    ev._type = "message-created".to_string();
    assert!(convert_event(ev).is_err());
}

#[test]
fn test_convert_event_bad_content_degrades_to_empty() {
    let mut ev = message_created_event();
    ev.message.as_mut().unwrap().content = "<p>never closed".to_string();
    let p = convert_event(ev).unwrap();
    assert!(p.elements.is_empty());
}

#[test]
fn test_broadcaster_latest_value() {
    let mut b: Broadcaster<u64> = Broadcaster::new();
    let mut sub = b.subscribe();
    b.publish(1);
    b.publish(2);
    // v1 was superseded before the subscriber read: only v2 is observed
    assert_eq!(b.poll(&mut sub), Some(&2));
    // and nothing is observed twice
    assert_eq!(b.poll(&mut sub), None);
    // a late subscriber sees only what is published after it subscribed
    let mut late = b.subscribe();
    assert_eq!(b.poll(&mut late), None);
    b.publish(3);
    assert_eq!(b.poll(&mut late), Some(&3));
}

#[test]
fn test_connection_state_machine_reconnects() {
    let mut m = ConnManager::new(Some("tok".to_string()));
    assert_eq!(m.state, ConnState::Disconnected);
    // two failed attempts: each asks for the fixed backoff and stands ready
    for _ in 0..2 {
        assert!(matches!(m.on_event(ConnEvent::Wake), Some(ConnAction::AttemptHandshake)));
        assert_eq!(m.state, ConnState::Connecting);
        assert!(matches!(m.on_event(ConnEvent::HandshakeFailed), Some(ConnAction::SleepRetry)));
        assert_eq!(m.state, ConnState::Disconnected);
    }
    // success: identify is sent, then streaming resumes
    assert!(matches!(m.on_event(ConnEvent::Wake), Some(ConnAction::AttemptHandshake)));
    match m.on_event(ConnEvent::HandshakeSucceeded) {
        Some(ConnAction::SendIdentify(t)) => assert_eq!(t, "tok"),
        _ => panic!("expected the identify frame"),
    }
    assert_eq!(m.state, ConnState::Authenticating);
    assert!(m.on_event(ConnEvent::IdentifySent).is_none());
    assert_eq!(m.state, ConnState::Streaming);
    // heartbeat and event delivery
    assert!(matches!(m.on_event(ConnEvent::HeartbeatTick), Some(ConnAction::SendHeartbeat)));
    match m.on_event(ConnEvent::Frame { op: 0, body: Some(message_created_event()) }) {
        Some(ConnAction::Publish(p)) => assert_eq!(p.message_id, "m-1"),
        _ => panic!("expected the event to be published"),
    }
    // non-dispatch frames and unconvertible bodies are dropped
    assert!(m.on_event(ConnEvent::Frame { op: 4, body: None }).is_none());
    assert!(m.on_event(ConnEvent::Frame { op: 0, body: Some(empty_event()) }).is_none());
    assert_eq!(m.state, ConnState::Streaming);
    // a lost connection goes back to the start, without ending anything
    assert!(m.on_event(ConnEvent::ReceiveFailed).is_none());
    assert_eq!(m.state, ConnState::Disconnected);
    assert!(matches!(m.on_event(ConnEvent::Wake), Some(ConnAction::AttemptHandshake)));
}

#[test]
fn test_frames() {
    assert_eq!(heartbeat_frame(), "{\"op\":1}");
    assert_eq!(
        identify_frame("tok"),
        "{\"op\":3,\"body\":{\"token\":\"tok\"}}"
    );
}

#[test]
fn test_classify_status() {
    assert!(classify_status(200).is_ok());
    assert!(classify_status(299).is_ok());
    assert!(matches!(classify_status(400), Err(RpcError::BadRequest)));
    assert!(matches!(classify_status(401), Err(RpcError::Unauthorized)));
    assert!(matches!(classify_status(403), Err(RpcError::Forbidden)));
    assert!(matches!(classify_status(404), Err(RpcError::NotFound)));
    assert!(matches!(classify_status(405), Err(RpcError::MethodNotAllowed)));
    assert!(matches!(classify_status(500), Err(RpcError::ServerSide)));
    assert!(matches!(classify_status(599), Err(RpcError::ServerSide)));
    assert!(matches!(classify_status(302), Err(RpcError::NonStandardResponseStatus)));
}

#[test]
fn test_rpc_error_to_served_status() {
    let st = RpcError::BadRequest.into_served_status();
    assert_eq!(st.kind, ServedStatusKind::InvalidArgument);
    assert_eq!(st.message, "\u{8bf7}\u{6c42}\u{683c}\u{5f0f}\u{9519}\u{8bef}");
    let st = RpcError::Transport("connection refused".to_string()).into_served_status();
    assert_eq!(st.kind, ServedStatusKind::Internal);
    assert_eq!(st.message, "Request failed: connection refused");
    let st = send_failure_status(RpcError::ServerSide);
    assert_eq!(st.kind, ServedStatusKind::Internal);
    assert_eq!(st.message, "satori returned a error for ServerSide");
}

#[test]
fn test_prepare_send() {
    let els = vec![KritorElement::Text { text: "hello".to_string() }];
    let req = prepare_send(
        Contact { scene: Scene::Group, peer: "g1".to_string(), sub_peer: None },
        els,
    )
    .unwrap();
    assert_eq!(req.channel_id, "g1");
    assert_eq!(req.content, "hello");

    let els = vec![KritorElement::Text { text: "hello".to_string() }];
    let req = prepare_send(
        Contact { scene: Scene::Friend, peer: "10086".to_string(), sub_peer: None },
        els,
    )
    .unwrap();
    assert_eq!(req.channel_id, "private:10086");

    let els = vec![KritorElement::Text { text: "hello".to_string() }];
    let st = prepare_send(
        Contact { scene: Scene::Unspecified, peer: "x".to_string(), sub_peer: None },
        els,
    )
    .unwrap_err();
    assert_eq!(st.kind, ServedStatusKind::InvalidArgument);
    assert_eq!(st.message, "The scene is not supported by satori");

    let els = vec![KritorElement::Forward { uniseq: "m".to_string() }];
    let st = prepare_send(
        Contact { scene: Scene::Group, peer: "g1".to_string(), sub_peer: None },
        els,
    )
    .unwrap_err();
    assert_eq!(st.kind, ServedStatusKind::InvalidArgument);
    assert_eq!(
        st.message,
        "Failed to convert kritor elements to satori elements:including elements unsupported by satori."
    );
}

#[test]
fn test_send_response_from() {
    let st = send_response_from(vec![]).unwrap_err();
    assert_eq!(st.kind, ServedStatusKind::Internal);
    assert_eq!(st.message, "satori returned a empty message list");

    let msgs = vec![
        Message {
            id: "m-1".to_string(),
            content: String::new(),
            channel: None,
            guild: None,
            member: None,
            user: None,
            created_at: None,
            updated_at: None,
        },
        Message {
            id: "m-2".to_string(),
            content: String::new(),
            channel: None,
            guild: None,
            member: None,
            user: None,
            created_at: Some(1700000001),
            updated_at: None,
        },
    ];
    let resp = send_response_from(msgs).unwrap();
    assert_eq!(resp.message_id, "m-2");
    assert_eq!(resp.message_time, 1700000001);
}

#[test]
fn test_config_example() {
    let c = Config::example();
    assert_eq!(c.server.listen, "127.0.0.1:51405");
    assert_eq!(c.server.rust_log.as_deref(), Some("info"));
    let BackendConfig::Satori(s) = c.backend;
    assert_eq!(s.scheme, "http");
    assert_eq!(s.host, "127.0.0.1");
    assert_eq!(s.port, 15500);
    assert!(s.path.is_none());
    assert_eq!(s.token.as_deref(), Some("super_secret"));
    assert_eq!(s.version, "v1");
}

#[test]
fn test_base_url_string() {
    let c = SatoriConfig {
        scheme: "http".to_string(),
        host: "127.0.0.1".to_string(),
        port: 15500,
        path: None,
        version: "v1".to_string(),
        token: None,
    };
    assert_eq!(c.base_url_string(), "http://127.0.0.1:15500/v1/");
    let c = SatoriConfig {
        scheme: "https".to_string(),
        host: "example.com".to_string(),
        port: 443,
        path: Some("satori/".to_string()),
        version: "v1".to_string(),
        token: None,
    };
    assert_eq!(c.base_url_string(), "https://example.com:443/satori/v1/");
}

#[test]
fn test_bearer_header() {
    assert_eq!(kritor_agent::client::bearer_header("tok"), "Bearer tok");
}
