//! The executable codec: serializing a packet to a text frame and parsing a
//! text frame into a packet, each proved against the grammar in `codec`.

use vstd::prelude::*;
use vstd::slice::{slice_subrange, slice_to_vec};
use crate::byte_scan::{dec_digits, dec_value, digit_run_end, find_byte_from, find_pat_from,
    is_digit, lemma_dec_value_subrange_extend, lemma_find_byte_from_props,
    lemma_find_pat_from_props, matches_at};
use crate::codec::{connect_error_payload_shape, connect_payload_shape, default_namespace,
    empty_array, lit_max_payload_key, lit_message_obj_prefix, lit_ping_interval_key,
    lit_ping_timeout_key, lit_probe, lit_sid_key, no_quote, ser_ack_opt, ser_connect_error_payload,
    ser_connect_payload, ser_contract, ser_event_args, ser_message, ser_ns_prefix,
    ser_open_payload, spec_num_field, spec_parse_ack, spec_parse_connect,
    spec_parse_connect_error, spec_parse_contract, spec_parse_event, spec_parse_message, spec_parse_open, split_namespace, NumField, B_COMMA, B_LBRACE,
    B_LBRACKET, B_QUOTE, B_RBRACE, B_RBRACKET, B_SLASH};
use crate::errors::SocketIoClientError;
use crate::models::{ContractView, MessageView, OpenModelView, SocketIoContract,
    SocketIoHandshakeOpenModel, SocketIoMessage};

verus! {

// ---------------------------------------------------------------------------
// Executable byte patterns
// ---------------------------------------------------------------------------

fn probe_vec() -> (r: Vec<u8>)
    ensures
        r@ == lit_probe(),
{
    let v: Vec<u8> = vec![112u8, 114u8, 111u8, 98u8, 101u8];
    proof {
        assert(v@ =~= lit_probe());
    }
    v
}

fn sid_key_vec() -> (r: Vec<u8>)
    ensures
        r@ == lit_sid_key(),
{
    let v: Vec<u8> = vec![34u8, 115u8, 105u8, 100u8, 34u8, 58u8, 34u8];
    proof {
        assert(v@ =~= lit_sid_key());
    }
    v
}

fn ping_interval_key_vec() -> (r: Vec<u8>)
    ensures
        r@ == lit_ping_interval_key(),
{
    let v: Vec<u8> = vec![34u8, 112u8, 105u8, 110u8, 103u8, 73u8, 110u8, 116u8, 101u8, 114u8,
        118u8, 97u8, 108u8, 34u8, 58u8];
    proof {
        assert(v@ =~= lit_ping_interval_key());
    }
    v
}

fn ping_timeout_key_vec() -> (r: Vec<u8>)
    ensures
        r@ == lit_ping_timeout_key(),
{
    let v: Vec<u8> = vec![34u8, 112u8, 105u8, 110u8, 103u8, 84u8, 105u8, 109u8, 101u8, 111u8,
        117u8, 116u8, 34u8, 58u8];
    proof {
        assert(v@ =~= lit_ping_timeout_key());
    }
    v
}

fn max_payload_key_vec() -> (r: Vec<u8>)
    ensures
        r@ == lit_max_payload_key(),
{
    let v: Vec<u8> = vec![34u8, 109u8, 97u8, 120u8, 80u8, 97u8, 121u8, 108u8, 111u8, 97u8, 100u8,
        34u8, 58u8];
    proof {
        assert(v@ =~= lit_max_payload_key());
    }
    v
}

fn message_obj_prefix_vec() -> (r: Vec<u8>)
    ensures
        r@ == lit_message_obj_prefix(),
{
    let v: Vec<u8> = vec![123u8, 34u8, 109u8, 101u8, 115u8, 115u8, 97u8, 103u8, 101u8, 34u8, 58u8,
        34u8];
    proof {
        assert(v@ =~= lit_message_obj_prefix());
    }
    v
}

// ---------------------------------------------------------------------------
// Small executable scans, each proved against its spec function
// ---------------------------------------------------------------------------

/// Byte-wise equality of two slices.
pub fn bytes_eq(a: &[u8], b: &[u8]) -> (r: bool)
    ensures
        r == (a@ == b@),
{
    if a.len() != b.len() {
        return false;
    }
    let n = a.len();
    let mut i: usize = 0;
    while i < n
        invariant
            n == a@.len() == b@.len(),
            0 <= i <= n,
            forall|j: int| 0 <= j < i ==> a@[j] == b@[j],
        decreases n - i,
    {
        if a[i] != b[i] {
            return false;
        }
        i += 1;
    }
    proof {
        assert(a@ =~= b@);
    }
    true
}

/// First position at or after `from` holding byte `b`.
pub fn find_byte(s: &[u8], from: usize, b: u8) -> (r: Option<usize>)
    requires
        from <= s@.len(),
    ensures
        match r {
            Option::Some(k) => from <= k < s@.len() && find_byte_from(s@, from as int, b)
                == Option::Some(k as int),
            Option::None => find_byte_from(s@, from as int, b) is None,
        },
{
    let n = s.len();
    let mut i: usize = from;
    while i < n
        invariant
            from <= i <= n,
            n == s@.len(),
            find_byte_from(s@, from as int, b) == find_byte_from(s@, i as int, b),
        decreases n - i,
    {
        if s[i] == b {
            return Some(i);
        }
        i += 1;
    }
    None
}

/// End of the maximal digit run starting at `from`.
pub fn digit_run_end_exec(s: &[u8], from: usize) -> (e: usize)
    requires
        from <= s@.len(),
    ensures
        e as int == digit_run_end(s@, from as int),
        from <= e <= s@.len(),
{
    let n = s.len();
    let mut i: usize = from;
    while i < n && 48 <= s[i] && s[i] <= 57
        invariant
            from <= i <= n,
            n == s@.len(),
            digit_run_end(s@, from as int) == digit_run_end(s@, i as int),
        decreases n - i,
    {
        i += 1;
    }
    i
}

/// Value of the digit run `s[from..to]`, if it fits in a `u64`.
pub fn parse_u64_run(s: &[u8], from: usize, to: usize) -> (r: Option<u64>)
    requires
        from <= to <= s@.len(),
        forall|j: int| from <= j < to ==> is_digit(#[trigger] s@[j]),
    ensures
        match r {
            Option::Some(v) => dec_value(s@.subrange(from as int, to as int)) == v as nat,
            Option::None => dec_value(s@.subrange(from as int, to as int)) > u64::MAX,
        },
{
    let mut acc: u64 = 0;
    let mut over: bool = false;
    let mut i: usize = from;
    proof {
        assert(s@.subrange(from as int, from as int) =~= Seq::<u8>::empty());
    }
    while i < to
        invariant
            from <= i <= to <= s@.len(),
            forall|j: int| from <= j < to ==> is_digit(#[trigger] s@[j]),
            !over ==> acc as nat == dec_value(s@.subrange(from as int, i as int)),
            over ==> dec_value(s@.subrange(from as int, i as int)) > u64::MAX,
        decreases to - i,
    {
        let d: u8 = s[i] - 48;
        proof {
            lemma_dec_value_subrange_extend(s@, from as int, i as int);
            assert((u64::MAX - d as u64) / 10 * 10 + (u64::MAX - d as u64) % 10 == u64::MAX
                - d as u64);
        }
        let ghost prev = dec_value(s@.subrange(from as int, i as int));
        if over {
            proof {
                assert(dec_value(s@.subrange(from as int, i as int + 1)) == prev * 10 + (
                s@[i as int] - 48) as nat);
                assert(prev * 10 >= prev) by (nonlinear_arith)
                    requires
                        prev >= 0,
                ;
            }
        } else {
            if acc > (u64::MAX - d as u64) / 10 {
                proof {
                    let m = (u64::MAX - d as u64) as int;
                    assert(acc as int >= m / 10 + 1);
                    assert(acc as int * 10 >= (m / 10 + 1) * 10) by (nonlinear_arith)
                        requires
                            acc as int >= m / 10 + 1,
                    ;
                    assert(m / 10 * 10 + m % 10 == m);
                    assert(acc as int * 10 + d as int > u64::MAX as int);
                    assert(dec_value(s@.subrange(from as int, i as int + 1)) == prev * 10 + (
                    s@[i as int] - 48) as nat);
                }
                over = true;
            } else {
                proof {
                    let m = (u64::MAX - d as u64) as int;
                    assert(acc as int * 10 <= m / 10 * 10) by (nonlinear_arith)
                        requires
                            acc as int <= m / 10,
                    ;
                    assert(m / 10 * 10 <= m);
                    assert(dec_value(s@.subrange(from as int, i as int + 1)) == prev * 10 + (
                    s@[i as int] - 48) as nat);
                }
                acc = acc * 10 + d as u64;
            }
        }
        i += 1;
    }
    if over {
        None
    } else {
        Some(acc)
    }
}

/// First occurrence of `pat` in `s`.
pub fn find_pat(s: &[u8], pat: &[u8]) -> (r: Option<usize>)
    ensures
        match r {
            Option::Some(k) => find_pat_from(s@, pat@, 0) == Option::Some(k as int) && k
                + pat@.len() <= s@.len(),
            Option::None => find_pat_from(s@, pat@, 0) is None,
        },
{
    let n = s.len();
    let m = pat.len();
    if m > n {
        proof {
            lemma_find_pat_from_props(s@, pat@, 0);
        }
        return None;
    }
    let mut i: usize = 0;
    while i <= n - m
        invariant
            0 <= i,
            i <= n - m + 1,
            m <= n,
            n == s@.len(),
            m == pat@.len(),
            find_pat_from(s@, pat@, 0) == find_pat_from(s@, pat@, i as int),
        decreases n - i,
    {
        let piece = slice_subrange(s, i, i + m);
        if bytes_eq(piece, pat) {
            proof {
                assert(matches_at(s@, pat@, i as int));
            }
            return Some(i);
        }
        proof {
            assert(!matches_at(s@, pat@, i as int));
        }
        i += 1;
    }
    proof {
        assert(i + m > n);
        assert(find_pat_from(s@, pat@, i as int) is None);
    }
    None
}

// ---------------------------------------------------------------------------
// Serialization
// ---------------------------------------------------------------------------

/// Decimal digits of `n`, most significant first.
pub fn u64_to_dec(n: u64) -> (r: Vec<u8>)
    ensures
        r@ == dec_digits(n as nat),
    decreases n,
{
    if n < 10 {
        let mut v: Vec<u8> = Vec::new();
        v.push((n as u8) + 48);
        proof {
            assert(v@ =~= dec_digits(n as nat));
        }
        v
    } else {
        let mut v = u64_to_dec(n / 10);
        v.push(((n % 10) as u8) + 48);
        proof {
            assert(v@ =~= dec_digits(n as nat));
        }
        v
    }
}

/// Appends the namespace segment: omitted for the default namespace unless
/// the tail would begin with `/`.
fn append_ns_prefix(out: &mut Vec<u8>, ns: &Vec<u8>, tail: &Vec<u8>)
    ensures
        final(out)@ == old(out)@ + ser_ns_prefix(ns@, tail@),
{
    let is_default = ns.len() == 1 && *vstd::std_specs::vec::vec_index(ns, 0) == B_SLASH;
    proof {
        if is_default {
            assert(ns@ =~= default_namespace());
        } else {
            assert(ns@ != default_namespace());
        }
    }
    let tail_slash = tail.len() > 0 && *vstd::std_specs::vec::vec_index(tail, 0) == B_SLASH;
    if is_default && !tail_slash {
        proof {
            assert(out@ =~= old(out)@ + ser_ns_prefix(ns@, tail@));
        }
    } else {
        out.extend_from_slice(ns.as_slice());
        out.push(B_COMMA);
        proof {
            assert(out@ =~= old(out)@ + ser_ns_prefix(ns@, tail@));
        }
    }
}

/// The EVENT argument array with the event name spliced back in.
fn event_args_vec(event_name: &Vec<u8>, data: &Vec<u8>) -> (r: Vec<u8>)
    ensures
        r@ == ser_event_args(event_name@, data@),
{
    let mut out: Vec<u8> = Vec::new();
    out.push(B_LBRACKET);
    out.push(B_QUOTE);
    out.extend_from_slice(event_name.as_slice());
    out.push(B_QUOTE);
    let is_empty_array = data.len() == 2 && *vstd::std_specs::vec::vec_index(data, 0) == B_LBRACKET
        && *vstd::std_specs::vec::vec_index(data, 1) == B_RBRACKET;
    proof {
        if is_empty_array {
            assert(data@ =~= empty_array());
        } else {
            assert(data@ != empty_array());
        }
    }
    if is_empty_array {
        out.push(B_RBRACKET);
    } else {
        out.push(B_COMMA);
        if data.len() >= 1 {
            out.extend_from_slice(slice_subrange(data.as_slice(), 1, data.len()));
        }
    }
    proof {
        assert(out@ =~= ser_event_args(event_name@, data@));
    }
    out
}

/// True iff no byte of `s` is a double quote.
fn has_no_quote(s: &Vec<u8>) -> (r: bool)
    ensures
        r == no_quote(s@),
{
    let r = find_byte(s.as_slice(), 0, B_QUOTE);
    proof {
        lemma_find_byte_from_props(s@, 0, B_QUOTE);
    }
    match r {
        Option::Some(k) => false,
        Option::None => true,
    }
}

/// Serializes a Socket.IO message to the body of a MESSAGE frame.
pub fn serialize_message(m: &SocketIoMessage) -> (r: Vec<u8>)
    ensures
        r@ == ser_message(m@),
{
    match m {
        SocketIoMessage::Connect { namespace, sid } => {
            let mut payload: Vec<u8> = Vec::new();
            match sid {
                Option::Some(s) => {
                    payload.push(B_LBRACE);
                    let key = sid_key_vec();
                    payload.extend_from_slice(key.as_slice());
                    payload.extend_from_slice(s.as_slice());
                    payload.push(B_QUOTE);
                    payload.push(B_RBRACE);
                    proof {
                        assert(payload@ =~= ser_connect_payload(s@));
                    }
                },
                Option::None => {
                    proof {
                        assert(payload@ =~= Seq::<u8>::empty());
                    }
                },
            }
            let mut out: Vec<u8> = Vec::new();
            out.push(48u8);
            append_ns_prefix(&mut out, namespace, &payload);
            out.extend_from_slice(payload.as_slice());
            proof {
                assert(out@ =~= ser_message(m@));
            }
            out
        },
        SocketIoMessage::Disconnect { namespace } => {
            let empty_tail: Vec<u8> = Vec::new();
            let mut out: Vec<u8> = Vec::new();
            out.push(49u8);
            append_ns_prefix(&mut out, namespace, &empty_tail);
            proof {
                assert(out@ =~= ser_message(m@));
            }
            out
        },
        SocketIoMessage::Event { namespace, event_name, data, ack } => {
            let mut tail: Vec<u8> = Vec::new();
            match ack {
                Option::Some(k) => {
                    let digits = u64_to_dec(*k);
                    tail.extend_from_slice(digits.as_slice());
                },
                Option::None => {},
            }
            proof {
                assert(tail@ =~= ser_ack_opt(*ack));
            }
            let args = event_args_vec(event_name, data);
            tail.extend_from_slice(args.as_slice());
            let mut out: Vec<u8> = Vec::new();
            out.push(50u8);
            append_ns_prefix(&mut out, namespace, &tail);
            out.extend_from_slice(tail.as_slice());
            proof {
                assert(out@ =~= ser_message(m@));
            }
            out
        },
        SocketIoMessage::Ack { namespace, data, ack } => {
            let mut tail = u64_to_dec(*ack);
            tail.extend_from_slice(data.as_slice());
            let mut out: Vec<u8> = Vec::new();
            out.push(51u8);
            append_ns_prefix(&mut out, namespace, &tail);
            out.extend_from_slice(tail.as_slice());
            proof {
                assert(out@ =~= ser_message(m@));
            }
            out
        },
        SocketIoMessage::ConnectError { namespace, message } => {
            let mut payload: Vec<u8> = Vec::new();
            if has_no_quote(message) {
                let key = message_obj_prefix_vec();
                payload.extend_from_slice(key.as_slice());
                payload.extend_from_slice(message.as_slice());
                payload.push(B_QUOTE);
                payload.push(B_RBRACE);
            } else {
                payload.extend_from_slice(message.as_slice());
            }
            proof {
                assert(payload@ =~= ser_connect_error_payload(message@));
            }
            let mut out: Vec<u8> = Vec::new();
            out.push(52u8);
            append_ns_prefix(&mut out, namespace, &payload);
            out.extend_from_slice(payload.as_slice());
            proof {
                assert(out@ =~= ser_message(m@));
            }
            out
        },
        SocketIoMessage::BinaryEvent { raw } => {
            let mut out: Vec<u8> = Vec::new();
            out.push(53u8);
            out.extend_from_slice(raw.as_slice());
            proof {
                assert(out@ =~= ser_message(m@));
            }
            out
        },
        SocketIoMessage::BinaryAck { raw } => {
            let mut out: Vec<u8> = Vec::new();
            out.push(54u8);
            out.extend_from_slice(raw.as_slice());
            proof {
                assert(out@ =~= ser_message(m@));
            }
            out
        },
    }
}

/// Serializes the OPEN payload in canonical form.
fn serialize_open_payload(m: &SocketIoHandshakeOpenModel) -> (r: Vec<u8>)
    ensures
        r@ == ser_open_payload(m@),
{
    let mut out: Vec<u8> = Vec::new();
    out.push(B_LBRACE);
    let key = sid_key_vec();
    out.extend_from_slice(key.as_slice());
    out.extend_from_slice(m.sid.as_slice());
    out.push(B_QUOTE);
    out.push(B_COMMA);
    let key_pi = ping_interval_key_vec();
    out.extend_from_slice(key_pi.as_slice());
    let d_pi = u64_to_dec(m.ping_interval);
    out.extend_from_slice(d_pi.as_slice());
    out.push(B_COMMA);
    let key_pt = ping_timeout_key_vec();
    out.extend_from_slice(key_pt.as_slice());
    let d_pt = u64_to_dec(m.ping_timeout);
    out.extend_from_slice(d_pt.as_slice());
    match &m.max_payload {
        Option::Some(mp) => {
            out.push(B_COMMA);
            let key_mp = max_payload_key_vec();
            out.extend_from_slice(key_mp.as_slice());
            let d_mp = u64_to_dec(*mp);
            out.extend_from_slice(d_mp.as_slice());
        },
        Option::None => {},
    }
    out.push(B_RBRACE);
    proof {
        assert(out@ =~= ser_open_payload(m@));
    }
    out
}

/// Serializes an Engine.IO packet to its text frame.
pub fn serialize_contract(c: &SocketIoContract) -> (r: Vec<u8>)
    ensures
        r@ == ser_contract(c@),
{
    match c {
        SocketIoContract::Open(m) => {
            let mut out: Vec<u8> = Vec::new();
            out.push(48u8);
            let payload = serialize_open_payload(m);
            out.extend_from_slice(payload.as_slice());
            proof {
                assert(out@ =~= ser_contract(c@));
            }
            out
        },
        SocketIoContract::Close => {
            let mut out: Vec<u8> = Vec::new();
            out.push(49u8);
            proof {
                assert(out@ =~= ser_contract(c@));
            }
            out
        },
        SocketIoContract::Ping { with_probe } => {
            let mut out: Vec<u8> = Vec::new();
            out.push(50u8);
            if *with_probe {
                let p = probe_vec();
                out.extend_from_slice(p.as_slice());
            }
            proof {
                assert(out@ =~= ser_contract(c@));
            }
            out
        },
        SocketIoContract::Pong { with_probe } => {
            let mut out: Vec<u8> = Vec::new();
            out.push(51u8);
            if *with_probe {
                let p = probe_vec();
                out.extend_from_slice(p.as_slice());
            }
            proof {
                assert(out@ =~= ser_contract(c@));
            }
            out
        },
        SocketIoContract::Message(m) => {
            let mut out: Vec<u8> = Vec::new();
            out.push(52u8);
            let body = serialize_message(m);
            out.extend_from_slice(body.as_slice());
            proof {
                assert(out@ =~= ser_contract(c@));
            }
            out
        },
        SocketIoContract::Upgrade => {
            let mut out: Vec<u8> = Vec::new();
            out.push(53u8);
            proof {
                assert(out@ =~= ser_contract(c@));
            }
            out
        },
        SocketIoContract::Noop => {
            let mut out: Vec<u8> = Vec::new();
            out.push(54u8);
            proof {
                assert(out@ =~= ser_contract(c@));
            }
            out
        },
    }
}

// ---------------------------------------------------------------------------
// Parsing
// ---------------------------------------------------------------------------

/// Splits the namespace off the front of a Socket.IO packet body.
fn split_ns<'a>(r: &'a [u8]) -> (res: (Vec<u8>, &'a [u8]))
    ensures
        res.0@ == split_namespace(r@).0,
        res.1@ == split_namespace(r@).1,
{
    if r.len() > 0 && r[0] == B_SLASH {
        match find_byte(r, 0, B_COMMA) {
            Option::Some(j) => {
                let ns = slice_to_vec(slice_subrange(r, 0, j));
                let p = slice_subrange(r, j + 1, r.len());
                proof {
                    assert(p@ =~= r@.skip(j + 1));
                }
                (ns, p)
            },
            Option::None => {
                let ns = slice_to_vec(r);
                let p = slice_subrange(r, r.len(), r.len());
                proof {
                    assert(p@ =~= Seq::<u8>::empty());
                }
                (ns, p)
            },
        }
    } else {
        let ns: Vec<u8> = vec![B_SLASH];
        proof {
            assert(ns@ =~= default_namespace());
        }
        (ns, r)
    }
}

/// Parses a CONNECT payload: the exact shape `{"sid":"..."}` yields the sid.
fn parse_connect_exec(ns: Vec<u8>, p: &[u8]) -> (r: SocketIoMessage)
    ensures
        r@ == spec_parse_connect(ns@, p@),
{
    let mut shape = false;
    let mut sid_from: usize = 0;
    let mut sid_to: usize = 0;
    if p.len() >= 10 {
        let pref: Vec<u8> = vec![123u8, 34u8, 115u8, 105u8, 100u8, 34u8, 58u8, 34u8];
        proof {
            assert(pref@ =~= seq![B_LBRACE] + lit_sid_key());
        }
        if bytes_eq(slice_subrange(p, 0, 8), pref.as_slice()) {
            match find_byte(p, 8, B_QUOTE) {
                Option::Some(k) => {
                    if k == p.len() - 2 && p[p.len() - 1] == B_RBRACE {
                        shape = true;
                        sid_from = 8;
                        sid_to = p.len() - 2;
                    }
                },
                Option::None => {},
            }
        }
    }
    proof {
        assert(shape == connect_payload_shape(p@));
    }
    if shape {
        let sid = slice_to_vec(slice_subrange(p, sid_from, sid_to));
        SocketIoMessage::Connect { namespace: ns, sid: Option::Some(sid) }
    } else {
        SocketIoMessage::Connect { namespace: ns, sid: Option::None }
    }
}

/// Parses a CONNECT_ERROR payload: the exact shape `{"message":"..."}`
/// yields the message; anything else is kept raw.
fn parse_connect_error_exec(ns: Vec<u8>, p: &[u8]) -> (r: SocketIoMessage)
    ensures
        r@ == spec_parse_connect_error(ns@, p@),
{
    let mut shape = false;
    if p.len() >= 14 {
        let pref = message_obj_prefix_vec();
        if bytes_eq(slice_subrange(p, 0, 12), pref.as_slice()) {
            match find_byte(p, 12, B_QUOTE) {
                Option::Some(k) => {
                    if k == p.len() - 2 && p[p.len() - 1] == B_RBRACE {
                        shape = true;
                    }
                },
                Option::None => {},
            }
        }
    }
    proof {
        assert(shape == connect_error_payload_shape(p@));
    }
    if shape {
        let message = slice_to_vec(slice_subrange(p, 12, p.len() - 2));
        SocketIoMessage::ConnectError { namespace: ns, message }
    } else {
        SocketIoMessage::ConnectError { namespace: ns, message: slice_to_vec(p) }
    }
}

/// Parses an EVENT body after the namespace: optional ack id, then the
/// argument array `["<name>"...]`.
fn parse_event_exec(ns: Vec<u8>, p: &[u8]) -> (r: Result<SocketIoMessage, SocketIoClientError>)
    ensures
        match r {
            Result::Ok(m) => spec_parse_event(ns@, p@) == Result::<MessageView,
                SocketIoClientError,
            >::Ok(m@),
            Result::Err(e) => spec_parse_event(ns@, p@) == Result::<MessageView,
                SocketIoClientError,
            >::Err(e),
        },
{
    let e = digit_run_end_exec(p, 0);
    proof {
        crate::byte_scan::lemma_digit_run_end_bounds(p@, 0);
    }
    let ack: Option<u64> = if e == 0 {
        Option::None
    } else {
        match parse_u64_run(p, 0, e) {
            Option::Some(v) => Option::Some(v),
            Option::None => {
                return Result::Err(SocketIoClientError::AckIdOverflow);
            },
        }
    };
    let payload = slice_subrange(p, e, p.len());
    proof {
        assert(payload@ =~= p@.skip(e as int));
    }
    if payload.len() >= 2 && payload[0] == B_LBRACKET && payload[1] == B_QUOTE {
        match find_byte(payload, 2, B_QUOTE) {
            Option::Some(q) => {
                let name = slice_to_vec(slice_subrange(payload, 2, q));
                if q + 1 < payload.len() && payload[q + 1] == B_RBRACKET {
                    let data: Vec<u8> = vec![B_LBRACKET, B_RBRACKET];
                    proof {
                        let after = payload@.skip(q + 1);
                        assert(after[0] == payload@[q as int + 1]);
                        assert(data@ =~= empty_array());
                    }
                    Result::Ok(
                        SocketIoMessage::Event { namespace: ns, event_name: name, data, ack },
                    )
                } else if q + 1 < payload.len() && payload[q + 1] == B_COMMA {
                    let mut data: Vec<u8> = vec![B_LBRACKET];
                    data.extend_from_slice(slice_subrange(payload, q + 2, payload.len()));
                    proof {
                        let after = payload@.skip(q + 1);
                        assert(after[0] == payload@[q as int + 1]);
                        assert(after.skip(1) =~= payload@.subrange(q + 2, payload@.len() as int));
                        assert(data@ =~= seq![B_LBRACKET] + after.skip(1));
                    }
                    Result::Ok(
                        SocketIoMessage::Event { namespace: ns, event_name: name, data, ack },
                    )
                } else {
                    proof {
                        let after = payload@.skip(q + 1);
                        if after.len() >= 1 {
                            assert(after[0] == payload@[q as int + 1]);
                        }
                    }
                    Result::Err(SocketIoClientError::InvalidJson)
                }
            },
            Option::None => Result::Err(SocketIoClientError::InvalidJson),
        }
    } else {
        Result::Err(SocketIoClientError::InvalidJson)
    }
}

/// Parses an ACK body after the namespace: mandatory ack id, then the
/// argument array.
fn parse_ack_exec(ns: Vec<u8>, p: &[u8]) -> (r: Result<SocketIoMessage, SocketIoClientError>)
    ensures
        match r {
            Result::Ok(m) => spec_parse_ack(ns@, p@) == Result::<MessageView,
                SocketIoClientError,
            >::Ok(m@),
            Result::Err(e) => spec_parse_ack(ns@, p@) == Result::<MessageView,
                SocketIoClientError,
            >::Err(e),
        },
{
    let e = digit_run_end_exec(p, 0);
    proof {
        crate::byte_scan::lemma_digit_run_end_bounds(p@, 0);
    }
    if e == 0 {
        return Result::Err(SocketIoClientError::MalformedFrame);
    }
    match parse_u64_run(p, 0, e) {
        Option::Some(v) => {
            let data = slice_to_vec(slice_subrange(p, e, p.len()));
            proof {
                assert(data@ =~= p@.skip(e as int));
            }
            Result::Ok(SocketIoMessage::Ack { namespace: ns, data, ack: v })
        },
        Option::None => Result::Err(SocketIoClientError::AckIdOverflow),
    }
}

/// Parses the body of a MESSAGE frame into a Socket.IO message.
pub fn parse_message(s: &[u8]) -> (r: Result<SocketIoMessage, SocketIoClientError>)
    ensures
        match r {
            Result::Ok(m) => spec_parse_message(s@) == Result::<MessageView,
                SocketIoClientError,
            >::Ok(m@),
            Result::Err(e) => spec_parse_message(s@) == Result::<MessageView,
                SocketIoClientError,
            >::Err(e),
        },
{
    if s.len() == 0 {
        return Result::Err(SocketIoClientError::MalformedFrame);
    }
    let t = s[0];
    let r = slice_subrange(s, 1, s.len());
    proof {
        assert(r@ =~= s@.skip(1));
    }
    if t == 53 {
        return Result::Ok(SocketIoMessage::BinaryEvent { raw: slice_to_vec(r) });
    }
    if t == 54 {
        return Result::Ok(SocketIoMessage::BinaryAck { raw: slice_to_vec(r) });
    }
    if t > 54 || t < 48 {
        return Result::Err(SocketIoClientError::UnknownPacketType);
    }
    let (ns, p) = split_ns(r);
    if t == 48 {
        Result::Ok(parse_connect_exec(ns, p))
    } else if t == 49 {
        Result::Ok(SocketIoMessage::Disconnect { namespace: ns })
    } else if t == 50 {
        parse_event_exec(ns, p)
    } else if t == 51 {
        parse_ack_exec(ns, p)
    } else {
        Result::Ok(parse_connect_error_exec(ns, p))
    }
}

/// Looks one numeric field up in the OPEN payload.
fn num_field_exec(p: &[u8], key: &Vec<u8>) -> (r: Result<Option<u64>, SocketIoClientError>)
    ensures
        match r {
            Result::Ok(Option::Some(v)) => spec_num_field(p@, key@) == NumField::Val(v),
            Result::Ok(Option::None) => spec_num_field(p@, key@) == NumField::Absent,
            Result::Err(e) => spec_num_field(p@, key@) == NumField::Bad && e
                == SocketIoClientError::MalformedFrame,
        },
{
    match find_pat(p, key.as_slice()) {
        Option::Some(k) => {
            let n = p.len();
            proof {
                assert(k + key@.len() <= n);
            }
            let st = k + key.len();
            let e = digit_run_end_exec(p, st);
            proof {
                crate::byte_scan::lemma_digit_run_end_bounds(p@, st as int);
            }
            if e == st {
                Result::Err(SocketIoClientError::MalformedFrame)
            } else {
                match parse_u64_run(p, st, e) {
                    Option::Some(v) => Result::Ok(Option::Some(v)),
                    Option::None => Result::Err(SocketIoClientError::MalformedFrame),
                }
            }
        },
        Option::None => Result::Ok(Option::None),
    }
}

/// Parses an OPEN payload: the sid and the timing parameters.
pub fn parse_open(p: &[u8]) -> (r: Result<SocketIoHandshakeOpenModel, SocketIoClientError>)
    ensures
        match r {
            Result::Ok(m) => spec_parse_open(p@) == Result::<OpenModelView,
                SocketIoClientError,
            >::Ok(m@),
            Result::Err(e) => spec_parse_open(p@) == Result::<OpenModelView,
                SocketIoClientError,
            >::Err(e),
        },
{
    let sid_key = sid_key_vec();
    let i = match find_pat(p, sid_key.as_slice()) {
        Option::Some(i) => i,
        Option::None => {
            return Result::Err(SocketIoClientError::MalformedFrame);
        },
    };
    let n = p.len();
    proof {
        assert(lit_sid_key().len() == 7);
        assert(i + 7 <= n);
    }
    let j = match find_byte(p, i + 7, B_QUOTE) {
        Option::Some(j) => j,
        Option::None => {
            return Result::Err(SocketIoClientError::MalformedFrame);
        },
    };
    if j == i + 7 {
        return Result::Err(SocketIoClientError::MalformedFrame);
    }
    let sid = slice_to_vec(slice_subrange(p, i + 7, j));
    let key_pi = ping_interval_key_vec();
    let ping_interval = match num_field_exec(p, &key_pi) {
        Result::Ok(Option::Some(v)) => v,
        _ => {
            return Result::Err(SocketIoClientError::MalformedFrame);
        },
    };
    let key_pt = ping_timeout_key_vec();
    let ping_timeout = match num_field_exec(p, &key_pt) {
        Result::Ok(Option::Some(v)) => v,
        _ => {
            return Result::Err(SocketIoClientError::MalformedFrame);
        },
    };
    let key_mp = max_payload_key_vec();
    let max_payload = match num_field_exec(p, &key_mp) {
        Result::Ok(Option::Some(v)) => Option::Some(v),
        Result::Ok(Option::None) => Option::None,
        Result::Err(e) => {
            return Result::Err(SocketIoClientError::MalformedFrame);
        },
    };
    Result::Ok(SocketIoHandshakeOpenModel { sid, ping_interval, ping_timeout, max_payload })
}

/// Parses one Engine.IO text frame into a packet.
pub fn parse_contract(frame: &[u8]) -> (r: Result<SocketIoContract, SocketIoClientError>)
    ensures
        match r {
            Result::Ok(c) => spec_parse_contract(frame@) == Result::<ContractView,
                SocketIoClientError,
            >::Ok(c@),
            Result::Err(e) => spec_parse_contract(frame@) == Result::<ContractView,
                SocketIoClientError,
            >::Err(e),
        },
{
    if frame.len() == 0 {
        return Result::Err(SocketIoClientError::MalformedFrame);
    }
    let t = frame[0];
    let r = slice_subrange(frame, 1, frame.len());
    proof {
        assert(r@ =~= frame@.skip(1));
    }
    if t == 48 {
        match parse_open(r) {
            Result::Ok(m) => Result::Ok(SocketIoContract::Open(m)),
            Result::Err(e) => Result::Err(e),
        }
    } else if t == 49 {
        if r.len() == 0 {
            Result::Ok(SocketIoContract::Close)
        } else {
            Result::Err(SocketIoClientError::MalformedFrame)
        }
    } else if t == 50 || t == 51 {
        let probe = probe_vec();
        let with_probe = if r.len() == 0 {
            false
        } else if bytes_eq(r, probe.as_slice()) {
            true
        } else {
            return Result::Err(SocketIoClientError::MalformedFrame);
        };
        if t == 50 {
            Result::Ok(SocketIoContract::Ping { with_probe })
        } else {
            Result::Ok(SocketIoContract::Pong { with_probe })
        }
    } else if t == 52 {
        match parse_message(r) {
            Result::Ok(m) => Result::Ok(SocketIoContract::Message(m)),
            Result::Err(e) => Result::Err(e),
        }
    } else if t == 53 {
        if r.len() == 0 {
            Result::Ok(SocketIoContract::Upgrade)
        } else {
            Result::Err(SocketIoClientError::MalformedFrame)
        }
    } else if t == 54 {
        if r.len() == 0 {
            Result::Ok(SocketIoContract::Noop)
        } else {
            Result::Err(SocketIoClientError::MalformedFrame)
        }
    } else {
        Result::Err(SocketIoClientError::UnknownPacketType)
    }
}

} // verus!
