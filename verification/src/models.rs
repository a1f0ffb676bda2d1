//! The packet data model: Engine.IO contracts, Socket.IO messages and the
//! handshake OPEN model, together with their mathematical views.
//!
//! Text on the wire is handled as UTF-8 bytes; namespaces, event names and
//! JSON payloads are byte strings.  Every executable type has a ghost view
//! over `Seq<u8>` that the codec contracts speak of.

use vstd::prelude::*;

verus! {

/// Parameters carried by the Engine.IO handshake OPEN packet.
#[derive(Debug)]
pub struct SocketIoHandshakeOpenModel {
    /// Session id assigned by the server.
    pub sid: Vec<u8>,
    /// Server ping interval in milliseconds.
    pub ping_interval: u64,
    /// Server ping timeout in milliseconds.
    pub ping_timeout: u64,
    /// Maximum payload size in bytes, when the server advertises one.
    pub max_payload: Option<u64>,
}

/// A Socket.IO packet carried inside an Engine.IO MESSAGE frame.
///
/// `Event::data` and `Ack::data` hold the argument list as a JSON array,
/// event name excluded (`[arg1, arg2, ...]`).  `BinaryEvent` and `BinaryAck`
/// keep the raw remainder of the frame so that binary placeholders are
/// preserved faithfully.
#[derive(Debug)]
pub enum SocketIoMessage {
    Connect { namespace: Vec<u8>, sid: Option<Vec<u8>> },
    Disconnect { namespace: Vec<u8> },
    Event { namespace: Vec<u8>, event_name: Vec<u8>, data: Vec<u8>, ack: Option<u64> },
    Ack { namespace: Vec<u8>, data: Vec<u8>, ack: u64 },
    ConnectError { namespace: Vec<u8>, message: Vec<u8> },
    BinaryEvent { raw: Vec<u8> },
    BinaryAck { raw: Vec<u8> },
}

/// An Engine.IO packet.
#[derive(Debug)]
pub enum SocketIoContract {
    Open(SocketIoHandshakeOpenModel),
    Close,
    Ping { with_probe: bool },
    Pong { with_probe: bool },
    Message(SocketIoMessage),
    Upgrade,
    Noop,
}

pub ghost struct OpenModelView {
    pub sid: Seq<u8>,
    pub ping_interval: u64,
    pub ping_timeout: u64,
    pub max_payload: Option<u64>,
}

pub ghost enum MessageView {
    Connect { namespace: Seq<u8>, sid: Option<Seq<u8>> },
    Disconnect { namespace: Seq<u8> },
    Event { namespace: Seq<u8>, event_name: Seq<u8>, data: Seq<u8>, ack: Option<u64> },
    Ack { namespace: Seq<u8>, data: Seq<u8>, ack: u64 },
    ConnectError { namespace: Seq<u8>, message: Seq<u8> },
    BinaryEvent { raw: Seq<u8> },
    BinaryAck { raw: Seq<u8> },
}

pub ghost enum ContractView {
    Open(OpenModelView),
    Close,
    Ping { with_probe: bool },
    Pong { with_probe: bool },
    Message(MessageView),
    Upgrade,
    Noop,
}

impl View for SocketIoHandshakeOpenModel {
    type V = OpenModelView;

    open spec fn view(&self) -> OpenModelView {
        OpenModelView {
            sid: self.sid@,
            ping_interval: self.ping_interval,
            ping_timeout: self.ping_timeout,
            max_payload: self.max_payload,
        }
    }
}

impl View for SocketIoMessage {
    type V = MessageView;

    open spec fn view(&self) -> MessageView {
        match self {
            SocketIoMessage::Connect { namespace, sid } => MessageView::Connect {
                namespace: namespace@,
                sid: match sid {
                    Some(s) => Some(s@),
                    None => None,
                },
            },
            SocketIoMessage::Disconnect { namespace } => MessageView::Disconnect {
                namespace: namespace@,
            },
            SocketIoMessage::Event { namespace, event_name, data, ack } => MessageView::Event {
                namespace: namespace@,
                event_name: event_name@,
                data: data@,
                ack: *ack,
            },
            SocketIoMessage::Ack { namespace, data, ack } => MessageView::Ack {
                namespace: namespace@,
                data: data@,
                ack: *ack,
            },
            SocketIoMessage::ConnectError { namespace, message } => MessageView::ConnectError {
                namespace: namespace@,
                message: message@,
            },
            SocketIoMessage::BinaryEvent { raw } => MessageView::BinaryEvent { raw: raw@ },
            SocketIoMessage::BinaryAck { raw } => MessageView::BinaryAck { raw: raw@ },
        }
    }
}

impl View for SocketIoContract {
    type V = ContractView;

    open spec fn view(&self) -> ContractView {
        match self {
            SocketIoContract::Open(m) => ContractView::Open(m@),
            SocketIoContract::Close => ContractView::Close,
            SocketIoContract::Ping { with_probe } => ContractView::Ping {
                with_probe: *with_probe,
            },
            SocketIoContract::Pong { with_probe } => ContractView::Pong {
                with_probe: *with_probe,
            },
            SocketIoContract::Message(m) => ContractView::Message(m@),
            SocketIoContract::Upgrade => ContractView::Upgrade,
            SocketIoContract::Noop => ContractView::Noop,
        }
    }
}

} // verus!
