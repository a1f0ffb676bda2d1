//! The user-facing model traits: typed payloads that users serialize and
//! deserialize themselves.
//!
//! Each model names the namespace and event it belongs to; the client core
//! works on the raw JSON text the models produce.

use vstd::prelude::*;

verus! {

/// A typed inbound event payload: names its `(namespace, event)` key and
/// builds itself from the raw argument text.
pub trait SocketIoSubscribeEventModel: Sized {
    fn name_space() -> &'static str;

    fn event_name() -> &'static str;

    fn deserialize(payload: &str) -> Self;
}

/// A typed reply returned by a subscriber, serialized back for the ACK.
pub trait SocketIoSubscribeOutModel {
    fn serialize(&self) -> String;
}

impl SocketIoSubscribeOutModel for () {
    fn serialize(&self) -> String {
        String::new()
    }
}

/// A typed request payload for `send_event_with_ack` and
/// `send_event_and_forget`.
pub trait SocketIoRpcInModel {
    fn name_space() -> &'static str;

    fn event_name() -> &'static str;

    fn serialize(&self) -> String;
}

/// A typed response payload parsed from an ACK.
pub trait SocketIoRpcOutModel: Sized {
    fn deserialize(payload: &str) -> Self;
}

} // verus!
