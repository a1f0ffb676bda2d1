//! The wire grammar of Engine.IO v4 text frames and the Socket.IO packet
//! encoding layered on top, defined as spec functions over byte sequences.
//!
//! Layout of a frame: the first ASCII digit is the Engine.IO packet type
//! (`0` OPEN .. `6` NOOP).  A MESSAGE frame (`4`) continues with the
//! Socket.IO format `<type>[<n>-][/<namespace>,][<ackId>]<jsonPayload>`.
//! Serialization and parsing are both defined here; `frames` holds the
//! executable codec proved against these definitions, and the round-trip
//! laws are in `codec_laws`.

use vstd::prelude::*;
use crate::byte_scan::{dec_digits, dec_value, digit_run_end, find_byte_from, find_pat_from,
    is_digit};
use crate::errors::SocketIoClientError;
use crate::models::{ContractView, MessageView, OpenModelView};

verus! {

// ASCII bytes the grammar is built from.
pub const B_QUOTE: u8 = 34;
pub const B_COMMA: u8 = 44;
pub const B_SLASH: u8 = 47;
pub const B_COLON: u8 = 58;
pub const B_LBRACKET: u8 = 91;
pub const B_RBRACKET: u8 = 93;
pub const B_LBRACE: u8 = 123;
pub const B_RBRACE: u8 = 125;

/// The literal `probe` that may follow a PING or PONG.
pub open spec fn lit_probe() -> Seq<u8> {
    seq![112u8, 114u8, 111u8, 98u8, 101u8]
}

/// The literal `"sid":"`.
pub open spec fn lit_sid_key() -> Seq<u8> {
    seq![34u8, 115u8, 105u8, 100u8, 34u8, 58u8, 34u8]
}

/// The literal `"pingInterval":`.
pub open spec fn lit_ping_interval_key() -> Seq<u8> {
    seq![34u8, 112u8, 105u8, 110u8, 103u8, 73u8, 110u8, 116u8, 101u8, 114u8, 118u8, 97u8, 108u8,
        34u8, 58u8]
}

/// The literal `"pingTimeout":`.
pub open spec fn lit_ping_timeout_key() -> Seq<u8> {
    seq![34u8, 112u8, 105u8, 110u8, 103u8, 84u8, 105u8, 109u8, 101u8, 111u8, 117u8, 116u8, 34u8,
        58u8]
}

/// The literal `"maxPayload":`.
pub open spec fn lit_max_payload_key() -> Seq<u8> {
    seq![34u8, 109u8, 97u8, 120u8, 80u8, 97u8, 121u8, 108u8, 111u8, 97u8, 100u8, 34u8, 58u8]
}

/// The literal `{"message":"`.
pub open spec fn lit_message_obj_prefix() -> Seq<u8> {
    seq![123u8, 34u8, 109u8, 101u8, 115u8, 115u8, 97u8, 103u8, 101u8, 34u8, 58u8, 34u8]
}

/// The default namespace `/`.
pub open spec fn default_namespace() -> Seq<u8> {
    seq![47u8]
}

/// The empty JSON array `[]`.
pub open spec fn empty_array() -> Seq<u8> {
    seq![91u8, 93u8]
}

pub open spec fn no_quote(s: Seq<u8>) -> bool {
    forall|i: int| 0 <= i < s.len() ==> s[i] != B_QUOTE
}

// ---------------------------------------------------------------------------
// Serialization
// ---------------------------------------------------------------------------

/// The namespace segment of a serialized message: omitted for the default
/// namespace, except when the bytes that follow would themselves begin with
/// `/` and so would be mistaken for a namespace by the parser.
pub open spec fn ser_ns_prefix(ns: Seq<u8>, tail: Seq<u8>) -> Seq<u8> {
    if ns == default_namespace() && !(tail.len() > 0 && tail[0] == B_SLASH) {
        Seq::<u8>::empty()
    } else {
        ns + seq![B_COMMA]
    }
}

pub open spec fn ser_ack_opt(a: Option<u64>) -> Seq<u8> {
    match a {
        Option::Some(k) => dec_digits(k as nat),
        Option::None => Seq::<u8>::empty(),
    }
}

/// A sequence without its first element; empty stays empty.
pub open spec fn seq_tail(s: Seq<u8>) -> Seq<u8> {
    if s.len() >= 1 {
        s.skip(1)
    } else {
        Seq::<u8>::empty()
    }
}

/// The EVENT payload `["<name>"...<args>]`: the argument array `data` is
/// spliced in after the event name.
pub open spec fn ser_event_args(name: Seq<u8>, data: Seq<u8>) -> Seq<u8> {
    seq![B_LBRACKET, B_QUOTE] + name + seq![B_QUOTE] + (if data == empty_array() {
        seq![B_RBRACKET]
    } else {
        seq![B_COMMA] + seq_tail(data)
    })
}

/// The CONNECT payload carrying a session id.
pub open spec fn ser_connect_payload(sid: Seq<u8>) -> Seq<u8> {
    seq![B_LBRACE] + lit_sid_key() + sid + seq![B_QUOTE, B_RBRACE]
}

/// The CONNECT_ERROR payload: a quote-free message is wrapped into
/// `{"message":"..."}`; any other message is emitted raw.
pub open spec fn ser_connect_error_payload(message: Seq<u8>) -> Seq<u8> {
    if no_quote(message) {
        lit_message_obj_prefix() + message + seq![B_QUOTE, B_RBRACE]
    } else {
        message
    }
}

pub open spec fn ser_message(m: MessageView) -> Seq<u8> {
    match m {
        MessageView::Connect { namespace, sid } => {
            let payload = match sid {
                Option::Some(s) => ser_connect_payload(s),
                Option::None => Seq::<u8>::empty(),
            };
            seq![48u8] + ser_ns_prefix(namespace, payload) + payload
        },
        MessageView::Disconnect { namespace } => seq![49u8] + ser_ns_prefix(
            namespace,
            Seq::<u8>::empty(),
        ),
        MessageView::Event { namespace, event_name, data, ack } => {
            let tail = ser_ack_opt(ack) + ser_event_args(event_name, data);
            seq![50u8] + ser_ns_prefix(namespace, tail) + tail
        },
        MessageView::Ack { namespace, data, ack } => {
            let tail = dec_digits(ack as nat) + data;
            seq![51u8] + ser_ns_prefix(namespace, tail) + tail
        },
        MessageView::ConnectError { namespace, message } => {
            let payload = ser_connect_error_payload(message);
            seq![52u8] + ser_ns_prefix(namespace, payload) + payload
        },
        MessageView::BinaryEvent { raw } => seq![53u8] + raw,
        MessageView::BinaryAck { raw } => seq![54u8] + raw,
    }
}

/// The canonical OPEN payload.
pub open spec fn ser_open_payload(m: OpenModelView) -> Seq<u8> {
    seq![B_LBRACE] + lit_sid_key() + m.sid + seq![B_QUOTE, B_COMMA] + lit_ping_interval_key()
        + dec_digits(m.ping_interval as nat) + seq![B_COMMA] + lit_ping_timeout_key() + dec_digits(
        m.ping_timeout as nat,
    ) + (match m.max_payload {
        Option::Some(mp) => seq![B_COMMA] + lit_max_payload_key() + dec_digits(mp as nat),
        Option::None => Seq::<u8>::empty(),
    }) + seq![B_RBRACE]
}

pub open spec fn ser_contract(c: ContractView) -> Seq<u8> {
    match c {
        ContractView::Open(m) => seq![48u8] + ser_open_payload(m),
        ContractView::Close => seq![49u8],
        ContractView::Ping { with_probe } => seq![50u8] + (if with_probe {
            lit_probe()
        } else {
            Seq::<u8>::empty()
        }),
        ContractView::Pong { with_probe } => seq![51u8] + (if with_probe {
            lit_probe()
        } else {
            Seq::<u8>::empty()
        }),
        ContractView::Message(m) => seq![52u8] + ser_message(m),
        ContractView::Upgrade => seq![53u8],
        ContractView::Noop => seq![54u8],
    }
}

// ---------------------------------------------------------------------------
// Well-formedness: the packets the parser can produce, and exactly the ones
// whose serialization parses back unchanged.
// ---------------------------------------------------------------------------

pub open spec fn wf_namespace(ns: Seq<u8>) -> bool {
    &&& ns.len() >= 1
    &&& ns[0] == B_SLASH
    &&& forall|i: int| 0 <= i < ns.len() ==> ns[i] != B_COMMA
}

/// The exact shape `{"sid":"<quote-free>"}`.
pub open spec fn connect_payload_shape(p: Seq<u8>) -> bool {
    &&& p.len() >= 10
    &&& p.subrange(0, 8) == seq![B_LBRACE] + lit_sid_key()
    &&& find_byte_from(p, 8, B_QUOTE) == Option::Some(p.len() - 2)
    &&& p[p.len() - 1] == B_RBRACE
}

/// The exact shape `{"message":"<quote-free>"}`.
pub open spec fn connect_error_payload_shape(p: Seq<u8>) -> bool {
    &&& p.len() >= 14
    &&& p.subrange(0, 12) == lit_message_obj_prefix()
    &&& find_byte_from(p, 12, B_QUOTE) == Option::Some(p.len() - 2)
    &&& p[p.len() - 1] == B_RBRACE
}

pub open spec fn wf_message(m: MessageView) -> bool {
    match m {
        MessageView::Connect { namespace, sid } => wf_namespace(namespace) && (match sid {
            Option::Some(s) => no_quote(s),
            Option::None => true,
        }),
        MessageView::Disconnect { namespace } => wf_namespace(namespace),
        MessageView::Event { namespace, event_name, data, ack } => {
            &&& wf_namespace(namespace)
            &&& no_quote(event_name)
            &&& data.len() >= 1
            &&& data[0] == B_LBRACKET
        },
        MessageView::Ack { namespace, data, ack } => {
            &&& wf_namespace(namespace)
            &&& (data.len() == 0 || !is_digit(data[0]))
        },
        MessageView::ConnectError { namespace, message } => {
            &&& wf_namespace(namespace)
            &&& (no_quote(message) || !connect_error_payload_shape(message))
        },
        MessageView::BinaryEvent { raw } => true,
        MessageView::BinaryAck { raw } => true,
    }
}

pub open spec fn wf_open_model(m: OpenModelView) -> bool {
    no_quote(m.sid) && m.sid.len() >= 1
}

pub open spec fn wf_contract(c: ContractView) -> bool {
    match c {
        ContractView::Open(m) => wf_open_model(m),
        ContractView::Message(m) => wf_message(m),
        _ => true,
    }
}

// ---------------------------------------------------------------------------
// Parsing
// ---------------------------------------------------------------------------

/// Split the namespace off the front of a Socket.IO packet body: a leading
/// `/` starts a namespace that runs to the first comma (or to the end);
/// otherwise the namespace is the default `/`.
pub open spec fn split_namespace(r: Seq<u8>) -> (Seq<u8>, Seq<u8>) {
    if r.len() > 0 && r[0] == B_SLASH {
        match find_byte_from(r, 0, B_COMMA) {
            Option::Some(j) => (r.subrange(0, j), r.skip(j + 1)),
            Option::None => (r, Seq::<u8>::empty()),
        }
    } else {
        (default_namespace(), r)
    }
}

pub open spec fn spec_parse_connect(ns: Seq<u8>, p: Seq<u8>) -> MessageView {
    if connect_payload_shape(p) {
        MessageView::Connect { namespace: ns, sid: Option::Some(p.subrange(8, p.len() - 2)) }
    } else {
        MessageView::Connect { namespace: ns, sid: Option::None }
    }
}

pub open spec fn spec_parse_connect_error(ns: Seq<u8>, p: Seq<u8>) -> MessageView {
    if connect_error_payload_shape(p) {
        MessageView::ConnectError { namespace: ns, message: p.subrange(12, p.len() - 2) }
    } else {
        MessageView::ConnectError { namespace: ns, message: p }
    }
}

pub open spec fn spec_parse_event_args(ns: Seq<u8>, ack: Option<u64>, payload: Seq<u8>) -> Result<
    MessageView,
    SocketIoClientError,
> {
    if payload.len() >= 2 && payload[0] == B_LBRACKET && payload[1] == B_QUOTE {
        match find_byte_from(payload, 2, B_QUOTE) {
            Option::Some(q) => {
                let name = payload.subrange(2, q);
                let after = payload.skip(q + 1);
                if after.len() >= 1 && after[0] == B_RBRACKET {
                    Result::Ok(
                        MessageView::Event {
                            namespace: ns,
                            event_name: name,
                            data: empty_array(),
                            ack,
                        },
                    )
                } else if after.len() >= 1 && after[0] == B_COMMA {
                    Result::Ok(
                        MessageView::Event {
                            namespace: ns,
                            event_name: name,
                            data: seq![B_LBRACKET] + after.skip(1),
                            ack,
                        },
                    )
                } else {
                    Result::Err(SocketIoClientError::InvalidJson)
                }
            },
            Option::None => Result::Err(SocketIoClientError::InvalidJson),
        }
    } else {
        Result::Err(SocketIoClientError::InvalidJson)
    }
}

pub open spec fn spec_parse_event(ns: Seq<u8>, p: Seq<u8>) -> Result<
    MessageView,
    SocketIoClientError,
> {
    let e = digit_run_end(p, 0);
    if e > 0 && dec_value(p.subrange(0, e)) > u64::MAX {
        Result::Err(SocketIoClientError::AckIdOverflow)
    } else {
        let ack = if e == 0 {
            Option::<u64>::None
        } else {
            Option::Some(dec_value(p.subrange(0, e)) as u64)
        };
        spec_parse_event_args(ns, ack, p.skip(e))
    }
}

pub open spec fn spec_parse_ack(ns: Seq<u8>, p: Seq<u8>) -> Result<
    MessageView,
    SocketIoClientError,
> {
    let e = digit_run_end(p, 0);
    if e == 0 {
        Result::Err(SocketIoClientError::MalformedFrame)
    } else if dec_value(p.subrange(0, e)) > u64::MAX {
        Result::Err(SocketIoClientError::AckIdOverflow)
    } else {
        Result::Ok(
            MessageView::Ack {
                namespace: ns,
                data: p.skip(e),
                ack: dec_value(p.subrange(0, e)) as u64,
            },
        )
    }
}

pub open spec fn spec_parse_message(s: Seq<u8>) -> Result<MessageView, SocketIoClientError> {
    if s.len() == 0 {
        Result::Err(SocketIoClientError::MalformedFrame)
    } else {
        let t = s[0];
        let r = s.skip(1);
        let ns = split_namespace(r).0;
        let p = split_namespace(r).1;
        if t == 48 {
            Result::Ok(spec_parse_connect(ns, p))
        } else if t == 49 {
            Result::Ok(MessageView::Disconnect { namespace: ns })
        } else if t == 50 {
            spec_parse_event(ns, p)
        } else if t == 51 {
            spec_parse_ack(ns, p)
        } else if t == 52 {
            Result::Ok(spec_parse_connect_error(ns, p))
        } else if t == 53 {
            Result::Ok(MessageView::BinaryEvent { raw: r })
        } else if t == 54 {
            Result::Ok(MessageView::BinaryAck { raw: r })
        } else {
            Result::Err(SocketIoClientError::UnknownPacketType)
        }
    }
}

/// Outcome of looking one numeric field up in the OPEN payload.
pub ghost enum NumField {
    Val(u64),
    Absent,
    Bad,
}

pub open spec fn spec_num_field(p: Seq<u8>, key: Seq<u8>) -> NumField {
    match find_pat_from(p, key, 0) {
        Option::Some(k) => {
            let st = k + key.len();
            let e = digit_run_end(p, st);
            if e == st {
                NumField::Bad
            } else if dec_value(p.subrange(st, e)) > u64::MAX {
                NumField::Bad
            } else {
                NumField::Val(dec_value(p.subrange(st, e)) as u64)
            }
        },
        Option::None => NumField::Absent,
    }
}

pub open spec fn spec_parse_open(p: Seq<u8>) -> Result<OpenModelView, SocketIoClientError> {
    match find_pat_from(p, lit_sid_key(), 0) {
        Option::Some(i) => match find_byte_from(p, i + 7, B_QUOTE) {
            Option::Some(j) => if j == i + 7 {
                // an empty sid fails the handshake
                Result::Err(SocketIoClientError::MalformedFrame)
            } else {
                let sid = p.subrange(i + 7, j);
                match spec_num_field(p, lit_ping_interval_key()) {
                    NumField::Val(pi) => match spec_num_field(p, lit_ping_timeout_key()) {
                        NumField::Val(pt) => match spec_num_field(p, lit_max_payload_key()) {
                            NumField::Val(mp) => Result::Ok(
                                OpenModelView {
                                    sid,
                                    ping_interval: pi,
                                    ping_timeout: pt,
                                    max_payload: Option::Some(mp),
                                },
                            ),
                            NumField::Absent => Result::Ok(
                                OpenModelView {
                                    sid,
                                    ping_interval: pi,
                                    ping_timeout: pt,
                                    max_payload: Option::None,
                                },
                            ),
                            NumField::Bad => Result::Err(SocketIoClientError::MalformedFrame),
                        },
                        _ => Result::Err(SocketIoClientError::MalformedFrame),
                    },
                    _ => Result::Err(SocketIoClientError::MalformedFrame),
                }
            },
            Option::None => Result::Err(SocketIoClientError::MalformedFrame),
        },
        Option::None => Result::Err(SocketIoClientError::MalformedFrame),
    }
}

pub open spec fn spec_parse_contract(s: Seq<u8>) -> Result<ContractView, SocketIoClientError> {
    if s.len() == 0 {
        Result::Err(SocketIoClientError::MalformedFrame)
    } else {
        let t = s[0];
        let r = s.skip(1);
        if t == 48 {
            match spec_parse_open(r) {
                Result::Ok(m) => Result::Ok(ContractView::Open(m)),
                Result::Err(e) => Result::Err(e),
            }
        } else if t == 49 {
            if r.len() == 0 {
                Result::Ok(ContractView::Close)
            } else {
                Result::Err(SocketIoClientError::MalformedFrame)
            }
        } else if t == 50 {
            if r.len() == 0 {
                Result::Ok(ContractView::Ping { with_probe: false })
            } else if r == lit_probe() {
                Result::Ok(ContractView::Ping { with_probe: true })
            } else {
                Result::Err(SocketIoClientError::MalformedFrame)
            }
        } else if t == 51 {
            if r.len() == 0 {
                Result::Ok(ContractView::Pong { with_probe: false })
            } else if r == lit_probe() {
                Result::Ok(ContractView::Pong { with_probe: true })
            } else {
                Result::Err(SocketIoClientError::MalformedFrame)
            }
        } else if t == 52 {
            match spec_parse_message(r) {
                Result::Ok(m) => Result::Ok(ContractView::Message(m)),
                Result::Err(e) => Result::Err(e),
            }
        } else if t == 53 {
            if r.len() == 0 {
                Result::Ok(ContractView::Upgrade)
            } else {
                Result::Err(SocketIoClientError::MalformedFrame)
            }
        } else if t == 54 {
            if r.len() == 0 {
                Result::Ok(ContractView::Noop)
            } else {
                Result::Err(SocketIoClientError::MalformedFrame)
            }
        } else {
            Result::Err(SocketIoClientError::UnknownPacketType)
        }
    }
}

} // verus!
