//! Error kinds of the client, as values.

use vstd::prelude::*;

verus! {

/// Everything that can go wrong inside the client.
///
/// Codec errors (`MalformedFrame`, `UnknownPacketType`, `InvalidJson`,
/// `AckIdOverflow`) are recovered locally by dropping the frame, except when
/// they hit the handshake OPEN packet.  `HeartbeatTimeout` is fatal to the
/// session.  `DuplicateSubscriber` is reported eagerly at registration time.
/// `ConnectionLost` resolves every parked ack once the session is closing;
/// `NamespaceDisconnected` does the same for a single namespace.
#[derive(Clone, Copy, PartialEq, Eq, Structural, Debug)]
pub enum SocketIoClientError {
    TransportError,
    MalformedFrame,
    UnknownPacketType,
    InvalidJson,
    AckIdOverflow,
    HeartbeatTimeout,
    DuplicateSubscriber,
    ConnectionLost,
    NamespaceDisconnected,
    NamespaceConnectError,
}

} // verus!
