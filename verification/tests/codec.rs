use my_socket_io_client::frames::{parse_contract, parse_message, serialize_contract,
    serialize_message};
use my_socket_io_client::models::{SocketIoContract, SocketIoMessage};
use my_socket_io_client::errors::SocketIoClientError;

fn round_trip(frame: &[u8]) -> Vec<u8> {
    let packet = parse_contract(frame).expect("frame should parse");
    let re = serialize_contract(&packet);
    let packet2 = parse_contract(&re).expect("re-serialized frame should parse");
    let re2 = serialize_contract(&packet2);
    assert_eq!(re, re2, "round trip must be stable");
    re
}

#[test]
fn parses_open_handshake() {
    let frame = b"0{\"sid\":\"lv_VI97HAXpY6yYWAAAC\",\"upgrades\":[],\"pingInterval\":25000,\"pingTimeout\":20000}";
    match parse_contract(frame) {
        Ok(SocketIoContract::Open(m)) => {
            assert_eq!(m.sid, b"lv_VI97HAXpY6yYWAAAC".to_vec());
            assert_eq!(m.ping_interval, 25000);
            assert_eq!(m.ping_timeout, 20000);
            assert_eq!(m.max_payload, None);
        },
        _ => panic!("expected OPEN"),
    }
}

#[test]
fn parses_open_with_max_payload() {
    let frame = b"0{\"sid\":\"abc\",\"upgrades\":[\"websocket\"],\"pingInterval\":1000,\"pingTimeout\":500,\"maxPayload\":1000000}";
    match parse_contract(frame) {
        Ok(SocketIoContract::Open(m)) => {
            assert_eq!(m.sid, b"abc".to_vec());
            assert_eq!(m.ping_interval, 1000);
            assert_eq!(m.ping_timeout, 500);
            assert_eq!(m.max_payload, Some(1000000));
        },
        _ => panic!("expected OPEN"),
    }
}

#[test]
fn open_round_trips() {
    round_trip(b"0{\"sid\":\"abc\",\"pingInterval\":25000,\"pingTimeout\":20000}");
    round_trip(b"0{\"sid\":\"x\",\"pingInterval\":1,\"pingTimeout\":0,\"maxPayload\":7}");
}

#[test]
fn open_with_empty_sid_is_malformed() {
    assert_eq!(
        parse_contract(b"0{\"sid\":\"\",\"pingInterval\":1,\"pingTimeout\":0}").unwrap_err(),
        SocketIoClientError::MalformedFrame
    );
}

#[test]
fn parses_ping_pong_and_probe() {
    assert!(matches!(parse_contract(b"2"), Ok(SocketIoContract::Ping { with_probe: false })));
    assert!(matches!(parse_contract(b"2probe"), Ok(SocketIoContract::Ping { with_probe: true })));
    assert!(matches!(parse_contract(b"3"), Ok(SocketIoContract::Pong { with_probe: false })));
    assert!(matches!(parse_contract(b"3probe"), Ok(SocketIoContract::Pong { with_probe: true })));
    assert!(matches!(parse_contract(b"1"), Ok(SocketIoContract::Close)));
    assert!(matches!(parse_contract(b"5"), Ok(SocketIoContract::Upgrade)));
    assert!(matches!(parse_contract(b"6"), Ok(SocketIoContract::Noop)));
}

#[test]
fn serializes_ping_pong() {
    assert_eq!(serialize_contract(&SocketIoContract::Pong { with_probe: false }), b"3".to_vec());
    assert_eq!(
        serialize_contract(&SocketIoContract::Pong { with_probe: true }),
        b"3probe".to_vec()
    );
    assert_eq!(serialize_contract(&SocketIoContract::Upgrade), b"5".to_vec());
}

#[test]
fn parses_connect_with_namespace_and_sid() {
    let frame = b"40/chat,{\"sid\":\"wZX3oN0bSVIhsaknAAAI\"}";
    match parse_contract(frame) {
        Ok(SocketIoContract::Message(SocketIoMessage::Connect { namespace, sid })) => {
            assert_eq!(namespace, b"/chat".to_vec());
            assert_eq!(sid, Some(b"wZX3oN0bSVIhsaknAAAI".to_vec()));
        },
        _ => panic!("expected CONNECT"),
    }
    round_trip(frame);
}

#[test]
fn parses_default_namespace_connect() {
    match parse_contract(b"40") {
        Ok(SocketIoContract::Message(SocketIoMessage::Connect { namespace, sid })) => {
            assert_eq!(namespace, b"/".to_vec());
            assert_eq!(sid, None);
        },
        _ => panic!("expected CONNECT"),
    }
}

#[test]
fn parses_event_with_ack_id() {
    let frame = b"42/chat,7[\"say\",\"hello\"]";
    match parse_contract(frame) {
        Ok(SocketIoContract::Message(SocketIoMessage::Event {
            namespace,
            event_name,
            data,
            ack,
        })) => {
            assert_eq!(namespace, b"/chat".to_vec());
            assert_eq!(event_name, b"say".to_vec());
            assert_eq!(data, b"[\"hello\"]".to_vec());
            assert_eq!(ack, Some(7));
        },
        _ => panic!("expected EVENT"),
    }
    assert_eq!(round_trip(frame), frame.to_vec());
}

#[test]
fn parses_event_without_args() {
    match parse_contract(b"42[\"hello\"]") {
        Ok(SocketIoContract::Message(SocketIoMessage::Event {
            namespace,
            event_name,
            data,
            ack,
        })) => {
            assert_eq!(namespace, b"/".to_vec());
            assert_eq!(event_name, b"hello".to_vec());
            assert_eq!(data, b"[]".to_vec());
            assert_eq!(ack, None);
        },
        _ => panic!("expected EVENT"),
    }
}

#[test]
fn parses_ack_frame() {
    let frame = b"43/chat,7[\"ok\"]";
    match parse_contract(frame) {
        Ok(SocketIoContract::Message(SocketIoMessage::Ack { namespace, data, ack })) => {
            assert_eq!(namespace, b"/chat".to_vec());
            assert_eq!(data, b"[\"ok\"]".to_vec());
            assert_eq!(ack, 7);
        },
        _ => panic!("expected ACK"),
    }
    assert_eq!(round_trip(frame), frame.to_vec());
}

#[test]
fn parses_connect_error_object() {
    let frame = b"44/admin,{\"message\":\"Not authorized\"}";
    match parse_contract(frame) {
        Ok(SocketIoContract::Message(SocketIoMessage::ConnectError { namespace, message })) => {
            assert_eq!(namespace, b"/admin".to_vec());
            assert_eq!(message, b"Not authorized".to_vec());
        },
        _ => panic!("expected CONNECT_ERROR"),
    }
    assert_eq!(round_trip(frame), frame.to_vec());
}

#[test]
fn serializes_event_for_default_namespace() {
    let msg = SocketIoMessage::Event {
        namespace: b"/".to_vec(),
        event_name: b"ping".to_vec(),
        data: b"[1,2]".to_vec(),
        ack: Some(1),
    };
    let frame = serialize_contract(&SocketIoContract::Message(msg));
    assert_eq!(frame, b"421[\"ping\",1,2]".to_vec());
}

#[test]
fn serializes_event_with_namespace() {
    let body = serialize_message(&SocketIoMessage::Event {
        namespace: b"/chat".to_vec(),
        event_name: b"say".to_vec(),
        data: b"[\"hello\"]".to_vec(),
        ack: Some(7),
    });
    assert_eq!(body, b"2/chat,7[\"say\",\"hello\"]".to_vec());
}

#[test]
fn serializes_namespace_connect() {
    let msg = SocketIoMessage::Connect { namespace: b"/admin".to_vec(), sid: None };
    assert_eq!(serialize_contract(&SocketIoContract::Message(msg)), b"40/admin,".to_vec());
}

#[test]
fn empty_frame_is_malformed() {
    assert_eq!(parse_contract(b"").unwrap_err(), SocketIoClientError::MalformedFrame);
}

#[test]
fn unknown_packet_type_is_reported() {
    assert_eq!(parse_contract(b"9").unwrap_err(), SocketIoClientError::UnknownPacketType);
    assert_eq!(parse_message(b"8").unwrap_err(), SocketIoClientError::UnknownPacketType);
}

#[test]
fn event_payload_without_array_is_invalid_json() {
    assert_eq!(parse_contract(b"42x").unwrap_err(), SocketIoClientError::InvalidJson);
}

#[test]
fn huge_ack_id_overflows() {
    assert_eq!(
        parse_contract(b"4318446744073709551616[\"x\"]").unwrap_err(),
        SocketIoClientError::AckIdOverflow
    );
}

#[test]
fn largest_ack_id_still_parses() {
    match parse_contract(b"4318446744073709551615[\"x\"]") {
        Ok(SocketIoContract::Message(SocketIoMessage::Ack { ack, .. })) => {
            assert_eq!(ack, u64::MAX);
        },
        _ => panic!("expected ACK"),
    }
}

#[test]
fn ack_without_id_is_malformed() {
    assert_eq!(parse_contract(b"43[\"x\"]").unwrap_err(), SocketIoClientError::MalformedFrame);
}

#[test]
fn open_without_sid_is_malformed() {
    assert_eq!(
        parse_contract(b"0{\"pingInterval\":1,\"pingTimeout\":2}").unwrap_err(),
        SocketIoClientError::MalformedFrame
    );
}

#[test]
fn binary_event_remainder_is_preserved() {
    let frame = b"451-[\"file\",{\"_placeholder\":true,\"num\":0}]";
    match parse_contract(frame) {
        Ok(SocketIoContract::Message(SocketIoMessage::BinaryEvent { ref raw })) => {
            assert_eq!(raw, &b"1-[\"file\",{\"_placeholder\":true,\"num\":0}]".to_vec());
        },
        _ => panic!("expected BINARY_EVENT"),
    }
    assert_eq!(round_trip(frame), frame.to_vec());
}
