use my_socket_io_client::ack_awaiters::AckAwaiters;
use my_socket_io_client::errors::SocketIoClientError;
use my_socket_io_client::event_subscribers::EventSubscribers;
use my_socket_io_client::sid::SocketIoSid;
use my_socket_io_client::url::{append_engine_io_params, append_query_param, get_url};

#[test]
fn duplicate_subscriber_fails_and_leaves_registry_unchanged() {
    let mut subs: EventSubscribers<u8> = EventSubscribers::new();
    subs.register(b"/".to_vec(), b"hello".to_vec(), 1).unwrap();
    let r = subs.register(b"/".to_vec(), b"hello".to_vec(), 2);
    assert_eq!(r.unwrap_err(), SocketIoClientError::DuplicateSubscriber);
    assert_eq!(subs.get(b"/", b"hello"), Some(&1));
    assert_eq!(subs.items.len(), 1);
}

#[test]
fn lookup_misses_unregistered_keys() {
    let mut subs: EventSubscribers<u8> = EventSubscribers::new();
    subs.register(b"/".to_vec(), b"hello".to_vec(), 1).unwrap();
    assert_eq!(subs.get(b"/", b"other"), None);
    assert_eq!(subs.get(b"/chat", b"hello"), None);
}

#[test]
fn namespaces_are_distinct() {
    let mut subs: EventSubscribers<u8> = EventSubscribers::new();
    subs.register(b"/".to_vec(), b"a".to_vec(), 1).unwrap();
    subs.register(b"/".to_vec(), b"b".to_vec(), 2).unwrap();
    subs.register(b"/chat".to_vec(), b"a".to_vec(), 3).unwrap();
    let mut nss = subs.get_namespaces();
    nss.sort();
    assert_eq!(nss, vec![b"/".to_vec(), b"/chat".to_vec()]);
}

#[test]
fn awaiters_store_and_remove_by_id() {
    let mut a: AckAwaiters<&'static str> = AckAwaiters::new();
    a.add_awaiter(1, "one");
    a.add_awaiter(2, "two");
    assert_eq!(a.remove_awaiter(2), Some("two"));
    assert_eq!(a.remove_awaiter(2), None);
    assert_eq!(a.remove_awaiter(3), None);
    let rest = a.take_all();
    assert_eq!(rest, vec![(1, "one")]);
}

#[test]
fn sid_is_twenty_capital_letters() {
    let sid = SocketIoSid::new();
    let s = sid.as_str();
    assert_eq!(s.len(), 20);
    assert!(s.chars().all(|c| ('A'..'Z').contains(&c)));
    assert_eq!(sid.to_string(), s.to_owned());
    let owned = sid.into_string();
    assert_eq!(owned.len(), 20);
}

#[test]
fn handshake_url_is_normalized() {
    assert_eq!(get_url(b"http://x.com", b"/socket.io"), b"http://x.com/socket.io/".to_vec());
    assert_eq!(get_url(b"http://x.com/", b"socket.io/"), b"http://x.com/socket.io/".to_vec());
    assert_eq!(get_url(b"http://x.com", b""), b"http://x.com/socket.io/".to_vec());
}

#[test]
fn query_params_use_the_right_separator() {
    assert_eq!(append_query_param(b"ws://a/", b"k", b"v"), b"ws://a/?k=v".to_vec());
    assert_eq!(append_query_param(b"ws://a/?x=1", b"k", b"v"), b"ws://a/?x=1&k=v".to_vec());
    assert_eq!(
        append_engine_io_params(b"ws://a/socket.io/"),
        b"ws://a/socket.io/?EIO=4&transport=websocket".to_vec()
    );
}
