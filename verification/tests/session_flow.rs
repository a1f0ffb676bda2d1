use my_socket_io_client::connection::SocketIoConnection;
use my_socket_io_client::errors::SocketIoClientError;
use my_socket_io_client::event_subscribers::EventSubscribers;
use my_socket_io_client::frames::parse_contract;
use my_socket_io_client::models::{SocketIoContract, SocketIoHandshakeOpenModel};
use my_socket_io_client::session::{SessionAction, SessionState, SocketIoContext};

fn open_session(subs: &EventSubscribers<u8>) -> SocketIoContext<i32> {
    let mut ctx: SocketIoContext<i32> = SocketIoContext::new(false);
    ctx.start();
    assert!(matches!(ctx.state, SessionState::Connecting));
    ctx.on_connected(false);
    assert!(matches!(ctx.state, SessionState::HandshakePending));
    let open = parse_contract(b"0{\"sid\":\"abc\",\"pingInterval\":25000,\"pingTimeout\":20000}")
        .expect("handshake should parse");
    ctx.handle_socket_io_contract(open, subs);
    assert!(matches!(ctx.state, SessionState::Open));
    ctx
}

#[test]
fn handshake_adopts_sid_and_connects_namespaces() {
    let mut subs: EventSubscribers<u8> = EventSubscribers::new();
    subs.register(b"/".to_vec(), b"hello".to_vec(), 1).unwrap();
    let mut ctx: SocketIoContext<i32> = SocketIoContext::new(false);
    ctx.start();
    ctx.on_connected(false);
    let open = parse_contract(b"0{\"sid\":\"abc\",\"pingInterval\":25000,\"pingTimeout\":20000}")
        .expect("handshake should parse");
    let actions = ctx.handle_socket_io_contract(open, &subs);
    assert_eq!(ctx.connection.get_sid(), Some(b"abc".to_vec()));
    assert!(matches!(ctx.state, SessionState::Open));
    // one CONNECT frame for the one subscribed namespace, then the callback
    assert_eq!(actions.len(), 2);
    match &actions[0] {
        SessionAction::SendFrame { frame } => assert_eq!(frame, &b"40".to_vec()),
        _ => panic!("expected a CONNECT frame first"),
    }
    assert!(matches!(actions[1], SessionAction::NotifyConnected));
}

#[test]
fn event_reaches_registered_subscriber() {
    let mut subs: EventSubscribers<u8> = EventSubscribers::new();
    subs.register(b"/".to_vec(), b"hello".to_vec(), 1).unwrap();
    let mut ctx = open_session(&subs);
    let joined = ctx.handle_socket_io_contract(parse_contract(b"40").unwrap(), &subs);
    assert_eq!(joined.len(), 1);
    match &joined[0] {
        SessionAction::NamespaceJoined { joined_namespace } => {
            assert_eq!(joined_namespace, &b"/".to_vec());
        },
        _ => panic!("expected a namespace join"),
    }
    let actions =
        ctx.handle_socket_io_contract(parse_contract(b"42[\"hello\",\"world\"]").unwrap(), &subs);
    assert_eq!(actions.len(), 1);
    match &actions[0] {
        SessionAction::InvokeSubscriber { event_namespace, event_name, event_data, event_ack } => {
            assert_eq!(event_namespace, &b"/".to_vec());
            assert_eq!(event_name, &b"hello".to_vec());
            assert_eq!(event_data, &b"[\"world\"]".to_vec());
            assert_eq!(event_ack, &None);
        },
        _ => panic!("expected the subscriber to run"),
    }
}

#[test]
fn no_subscriber_runs_before_open() {
    let subs: EventSubscribers<u8> = EventSubscribers::new();
    let mut ctx: SocketIoContext<i32> = SocketIoContext::new(false);
    ctx.start();
    ctx.on_connected(false);
    let actions =
        ctx.handle_socket_io_contract(parse_contract(b"42[\"hello\",\"world\"]").unwrap(), &subs);
    assert!(actions.is_empty());
    assert!(matches!(ctx.state, SessionState::HandshakePending));
}

#[test]
fn ping_is_answered_by_pong_first() {
    let subs: EventSubscribers<u8> = EventSubscribers::new();
    let mut ctx = open_session(&subs);
    let actions = ctx.handle_socket_io_contract(parse_contract(b"2").unwrap(), &subs);
    assert_eq!(actions.len(), 1);
    match &actions[0] {
        SessionAction::SendFrame { frame } => assert_eq!(frame, &b"3".to_vec()),
        _ => panic!("expected a PONG frame"),
    }
}

#[test]
fn probe_ping_is_answered_with_probe_pong_then_upgrade() {
    let subs: EventSubscribers<u8> = EventSubscribers::new();
    let mut ctx = open_session(&subs);
    let actions = ctx.handle_socket_io_contract(parse_contract(b"2probe").unwrap(), &subs);
    assert_eq!(actions.len(), 2);
    match &actions[0] {
        SessionAction::SendFrame { frame } => assert_eq!(frame, &b"3probe".to_vec()),
        _ => panic!("expected a probe PONG first"),
    }
    match &actions[1] {
        SessionAction::SendFrame { frame } => assert_eq!(frame, &b"5".to_vec()),
        _ => panic!("expected UPGRADE after the probe PONG"),
    }
}

#[test]
fn received_pong_is_accepted_silently() {
    let subs: EventSubscribers<u8> = EventSubscribers::new();
    let mut ctx = open_session(&subs);
    assert!(ctx.handle_socket_io_contract(parse_contract(b"3").unwrap(), &subs).is_empty());
    assert!(ctx.handle_socket_io_contract(parse_contract(b"3probe").unwrap(), &subs).is_empty());
    assert!(matches!(ctx.state, SessionState::Open));
}

#[test]
fn open_with_empty_sid_is_dropped() {
    let subs: EventSubscribers<u8> = EventSubscribers::new();
    let mut ctx: SocketIoContext<i32> = SocketIoContext::new(false);
    ctx.on_connected(false);
    let open = SocketIoContract::Open(SocketIoHandshakeOpenModel {
        sid: Vec::new(),
        ping_interval: 1000,
        ping_timeout: 500,
        max_payload: None,
    });
    let actions = ctx.handle_socket_io_contract(open, &subs);
    assert!(actions.is_empty());
    assert!(matches!(ctx.state, SessionState::HandshakePending));
    assert_eq!(ctx.connection.get_sid(), None);
}

#[test]
fn no_event_is_dispatched_after_connect_error() {
    let mut subs: EventSubscribers<u8> = EventSubscribers::new();
    subs.register(b"/admin".to_vec(), b"news".to_vec(), 1).unwrap();
    let mut ctx = open_session(&subs);
    ctx.handle_socket_io_contract(
        parse_contract(b"44/admin,{\"message\":\"Not authorized\"}").unwrap(),
        &subs,
    );
    let actions =
        ctx.handle_socket_io_contract(parse_contract(b"42/admin,[\"news\",1]").unwrap(), &subs);
    assert!(actions.is_empty());
    assert!(matches!(ctx.state, SessionState::Open));
}

#[test]
fn no_event_is_dispatched_after_namespace_disconnect() {
    let mut subs: EventSubscribers<u8> = EventSubscribers::new();
    subs.register(b"/chat".to_vec(), b"say".to_vec(), 1).unwrap();
    let mut ctx = open_session(&subs);
    ctx.handle_socket_io_contract(parse_contract(b"41/chat,").unwrap(), &subs);
    let actions =
        ctx.handle_socket_io_contract(parse_contract(b"42/chat,[\"say\",1]").unwrap(), &subs);
    assert!(actions.is_empty());
}

#[test]
fn rejoin_revives_a_dead_namespace() {
    let mut subs: EventSubscribers<u8> = EventSubscribers::new();
    subs.register(b"/chat".to_vec(), b"say".to_vec(), 1).unwrap();
    let mut ctx = open_session(&subs);
    ctx.handle_socket_io_contract(parse_contract(b"41/chat,").unwrap(), &subs);
    assert!(ctx
        .handle_socket_io_contract(parse_contract(b"42/chat,[\"say\",1]").unwrap(), &subs)
        .is_empty());
    // the server confirms a fresh join: events flow again
    ctx.handle_socket_io_contract(parse_contract(b"40/chat,").unwrap(), &subs);
    let actions =
        ctx.handle_socket_io_contract(parse_contract(b"42/chat,[\"say\",1]").unwrap(), &subs);
    assert_eq!(actions.len(), 1);
    assert!(matches!(actions[0], SessionAction::InvokeSubscriber { .. }));
}

#[test]
fn disconnect_clears_session_identity() {
    let subs: EventSubscribers<u8> = EventSubscribers::new();
    let mut ctx = open_session(&subs);
    assert!(ctx.connection.get_sid().is_some());
    ctx.handle_socket_io_contract(SocketIoContract::Close, &subs);
    assert!(matches!(ctx.state, SessionState::Closing));
    assert_eq!(ctx.connection.get_sid(), None);
    assert!(ctx.handshake_response.is_none());
}

#[test]
fn request_response_with_ack() {
    let subs: EventSubscribers<u8> = EventSubscribers::new();
    let mut ctx = open_session(&subs);
    let (ack_id, frame) = ctx.connection.send_event_with_ack(
        b"/".to_vec(),
        b"ping".to_vec(),
        b"[1,2]".to_vec(),
        77i32,
    );
    assert_eq!(ack_id, 1);
    assert_eq!(frame, b"421[\"ping\",1,2]".to_vec());
    let actions = ctx.handle_socket_io_contract(parse_contract(b"431[\"pong\",3]").unwrap(), &subs);
    assert_eq!(actions.len(), 1);
    match &actions[0] {
        SessionAction::CompleteAck { completed_slot, ack_data } => {
            assert_eq!(*completed_slot, 77);
            assert_eq!(ack_data, &b"[\"pong\",3]".to_vec());
        },
        _ => panic!("expected the awaiter to resolve"),
    }
}

#[test]
fn namespace_connect_error_surfaces_message() {
    let subs: EventSubscribers<u8> = EventSubscribers::new();
    let mut ctx = open_session(&subs);
    let actions = ctx.handle_socket_io_contract(
        parse_contract(b"44/admin,{\"message\":\"Not authorized\"}").unwrap(),
        &subs,
    );
    assert_eq!(actions.len(), 1);
    match &actions[0] {
        SessionAction::NamespaceConnectFailed { failed_namespace, error_message } => {
            assert_eq!(failed_namespace, &b"/admin".to_vec());
            assert_eq!(error_message, &b"Not authorized".to_vec());
        },
        _ => panic!("expected a namespace error"),
    }
    assert!(matches!(ctx.state, SessionState::Open));
}

#[test]
fn ack_for_unknown_id_is_dropped_with_warning() {
    let subs: EventSubscribers<u8> = EventSubscribers::new();
    let mut ctx = open_session(&subs);
    let actions = ctx.handle_socket_io_contract(parse_contract(b"4399[\"x\"]").unwrap(), &subs);
    assert_eq!(actions.len(), 1);
    assert!(matches!(actions[0], SessionAction::WarnUnknownAck { unknown_ack: 99 }));
    assert!(matches!(ctx.state, SessionState::Open));
}

#[test]
fn heartbeat_deadline_uses_interval_plus_timeout() {
    let subs: EventSubscribers<u8> = EventSubscribers::new();
    let mut ctx: SocketIoContext<i32> = SocketIoContext::new(false);
    ctx.on_connected(false);
    let open = parse_contract(b"0{\"sid\":\"abc\",\"pingInterval\":1000,\"pingTimeout\":500}")
        .expect("handshake should parse");
    ctx.handle_socket_io_contract(open, &subs);
    assert!(!ctx.heartbeat_expired(0, 1500));
    assert!(ctx.heartbeat_expired(0, 1501));
}

#[test]
fn heartbeat_timeout_fails_every_parked_ack_once() {
    let subs: EventSubscribers<u8> = EventSubscribers::new();
    let mut ctx = open_session(&subs);
    let (first, _) =
        ctx.connection.send_event_with_ack(b"/".to_vec(), b"a".to_vec(), b"[]".to_vec(), 5i32);
    let (second, _) =
        ctx.connection.send_event_with_ack(b"/".to_vec(), b"b".to_vec(), b"[]".to_vec(), 6i32);
    assert!(second > first);
    let actions = ctx.on_heartbeat_timeout();
    assert!(matches!(ctx.state, SessionState::Closing));
    assert_eq!(actions.len(), 3);
    let mut failed = Vec::new();
    for a in &actions[..2] {
        match a {
            SessionAction::FailAwaiter { failed_slot, fail_error } => {
                assert_eq!(*fail_error, SocketIoClientError::ConnectionLost);
                failed.push(*failed_slot);
            },
            _ => panic!("expected only failed awaiters before the callback"),
        }
    }
    failed.sort();
    assert_eq!(failed, vec![5, 6]);
    assert!(matches!(actions[2], SessionAction::NotifyDisconnected));
    ctx.close_complete();
    assert!(matches!(ctx.state, SessionState::Closed));
}

#[test]
fn close_packet_in_closing_state_changes_nothing() {
    let subs: EventSubscribers<u8> = EventSubscribers::new();
    let mut ctx = open_session(&subs);
    ctx.handle_socket_io_contract(SocketIoContract::Close, &subs);
    assert!(matches!(ctx.state, SessionState::Closing));
    let actions = ctx.handle_socket_io_contract(SocketIoContract::Close, &subs);
    assert!(actions.is_empty());
}

#[test]
fn namespace_disconnect_fails_only_that_namespace() {
    let subs: EventSubscribers<u8> = EventSubscribers::new();
    let mut ctx = open_session(&subs);
    ctx.connection.send_event_with_ack(b"/chat".to_vec(), b"a".to_vec(), b"[]".to_vec(), 1i32);
    ctx.connection.send_event_with_ack(b"/".to_vec(), b"b".to_vec(), b"[]".to_vec(), 2i32);
    let actions = ctx.handle_socket_io_contract(parse_contract(b"41/chat,").unwrap(), &subs);
    assert_eq!(actions.len(), 1);
    match &actions[0] {
        SessionAction::FailAwaiter { failed_slot, fail_error } => {
            assert_eq!(*failed_slot, 1);
            assert_eq!(*fail_error, SocketIoClientError::NamespaceDisconnected);
        },
        _ => panic!("expected the /chat awaiter to fail"),
    }
    // the awaiter on the default namespace still resolves
    let actions = ctx.handle_socket_io_contract(parse_contract(b"432[\"ok\"]").unwrap(), &subs);
    assert!(matches!(actions[0], SessionAction::CompleteAck { completed_slot: 2, .. }));
}

#[test]
fn concurrent_requests_get_increasing_ids_in_send_order() {
    let mut conn: SocketIoConnection<i32> = SocketIoConnection::new(false);
    let (id1, frame1) =
        conn.send_event_with_ack(b"/".to_vec(), b"a".to_vec(), b"[]".to_vec(), 10i32);
    let (id2, frame2) =
        conn.send_event_with_ack(b"/".to_vec(), b"b".to_vec(), b"[]".to_vec(), 20i32);
    assert_eq!(id1, 1);
    assert_eq!(id2, 2);
    assert_eq!(frame1, b"421[\"a\"]".to_vec());
    assert_eq!(frame2, b"422[\"b\"]".to_vec());
    // replies out of order still resolve the right awaiter
    assert_eq!(conn.handle_ack_event(&b"/".to_vec(), id2), Some(20));
    assert_eq!(conn.handle_ack_event(&b"/".to_vec(), id1), Some(10));
}

#[test]
fn each_ack_resolves_at_most_once() {
    let mut conn: SocketIoConnection<i32> = SocketIoConnection::new(false);
    let (id, _) = conn.send_event_with_ack(b"/".to_vec(), b"a".to_vec(), b"[]".to_vec(), 42i32);
    assert_eq!(conn.handle_ack_event(&b"/".to_vec(), id), Some(42));
    assert_eq!(conn.handle_ack_event(&b"/".to_vec(), id), None);
}

#[test]
fn ack_on_wrong_namespace_does_not_resolve() {
    let mut conn: SocketIoConnection<i32> = SocketIoConnection::new(false);
    let (id, _) = conn.send_event_with_ack(b"/chat".to_vec(), b"a".to_vec(), b"[]".to_vec(), 9i32);
    assert_eq!(conn.handle_ack_event(&b"/".to_vec(), id), None);
    assert_eq!(conn.handle_ack_event(&b"/chat".to_vec(), id), Some(9));
}
