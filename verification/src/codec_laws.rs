//! Round-trip laws of the codec: a parsed packet serializes back to a frame
//! that parses to the same packet, and every packet the parser produces is
//! well-formed.

use vstd::prelude::*;
use crate::byte_scan::{dec_digits, dec_value, digit_run_end, find_byte_from, find_pat_from,
    is_digit, lemma_dec_digits_wf, lemma_digit_run_of_concat,
    lemma_find_byte_from_props, lemma_find_pat_from_props, matches_at};
use crate::codec::{connect_error_payload_shape, connect_payload_shape, default_namespace,
    empty_array, lit_max_payload_key, lit_message_obj_prefix, lit_ping_interval_key,
    lit_ping_timeout_key, lit_sid_key, no_quote, seq_tail, ser_ack_opt,
    ser_connect_error_payload, ser_connect_payload, ser_contract, ser_event_args, ser_message,
    ser_ns_prefix, ser_open_payload, spec_num_field, spec_parse_contract, spec_parse_event_args,
    spec_parse_message, spec_parse_open, split_namespace, wf_contract, wf_message, wf_namespace,
    wf_open_model, NumField, B_COMMA, B_LBRACKET, B_QUOTE, B_RBRACE, B_RBRACKET, B_SLASH};
use crate::errors::SocketIoClientError;
use crate::models::{ContractView, MessageView, OpenModelView};

verus! {

/// If `b` occurs at `pos` and nowhere earlier (from `from` on), the scan
/// finds exactly `pos`.
pub proof fn lemma_find_byte_unique(s: Seq<u8>, from: int, b: u8, pos: int)
    requires
        0 <= from <= pos < s.len(),
        s[pos] == b,
        forall|j: int| from <= j < pos ==> s[j] != b,
    ensures
        find_byte_from(s, from, b) == Option::Some(pos),
{
    lemma_find_byte_from_props(s, from, b);
    match find_byte_from(s, from, b) {
        Option::Some(k) => {
            if k < pos {
                assert(s[k] != b);
            } else if k > pos {
                assert(s[pos] != b);
            }
        },
        Option::None => {
            assert(s[pos] != b);
        },
    }
}

/// If `pat` matches at `pos` and nowhere earlier, the search finds `pos`.
pub proof fn lemma_find_pat_unique(s: Seq<u8>, pat: Seq<u8>, pos: int)
    requires
        0 <= pos,
        matches_at(s, pat, pos),
        forall|i: int| 0 <= i < pos ==> !matches_at(s, pat, i),
    ensures
        find_pat_from(s, pat, 0) == Option::Some(pos),
{
    lemma_find_pat_from_props(s, pat, 0);
    match find_pat_from(s, pat, 0) {
        Option::Some(k) => {
            if k < pos {
                assert(!matches_at(s, pat, k));
            } else if k > pos {
                assert(!matches_at(s, pat, pos));
            }
        },
        Option::None => {
            assert(!matches_at(s, pat, pos));
        },
    }
}

/// Splitting the namespace off a serialized body returns the namespace and
/// the tail unchanged.
pub proof fn lemma_split_of_ser(ns: Seq<u8>, tail: Seq<u8>)
    requires
        wf_namespace(ns),
    ensures
        split_namespace(ser_ns_prefix(ns, tail) + tail).0 == ns,
        split_namespace(ser_ns_prefix(ns, tail) + tail).1 == tail,
{
    let s = ser_ns_prefix(ns, tail) + tail;
    if ns == default_namespace() && !(tail.len() > 0 && tail[0] == B_SLASH) {
        assert(s =~= tail);
        if tail.len() > 0 {
            assert(s[0] != B_SLASH);
        }
    } else {
        let full = ns + seq![B_COMMA];
        assert(s =~= full + tail);
        assert(s[0] == ns[0]);
        assert(s[ns.len() as int] == B_COMMA);
        assert forall|j: int| 0 <= j < ns.len() implies s[j] != B_COMMA by {
            assert(s[j] == ns[j]);
        }
        lemma_find_byte_unique(s, 0, B_COMMA, ns.len() as int);
        assert(s.subrange(0, ns.len() as int) =~= ns);
        assert(s.skip(ns.len() as int + 1) =~= tail);
    }
}

/// A serialized EVENT argument array parses back to the same name and data.
proof fn lemma_rt_event_args(ns: Seq<u8>, ack: Option<u64>, name: Seq<u8>, data: Seq<u8>)
    requires
        no_quote(name),
        data.len() >= 1,
        data[0] == B_LBRACKET,
    ensures
        spec_parse_event_args(ns, ack, ser_event_args(name, data)) == Result::<MessageView,
            SocketIoClientError,
        >::Ok(MessageView::Event { namespace: ns, event_name: name, data, ack }),
{
    let args = ser_event_args(name, data);
    let l = name.len() as int;
    assert(args[0] == B_LBRACKET);
    assert(args[1] == B_QUOTE);
    assert(args[2 + l] == B_QUOTE);
    assert forall|j: int| 2 <= j < 2 + l implies args[j] != B_QUOTE by {
        assert(args[j] == name[j - 2]);
    }
    lemma_find_byte_unique(args, 2, B_QUOTE, 2 + l);
    assert(args.subrange(2, 2 + l) =~= name);
    let after = args.skip(2 + l + 1);
    if data == empty_array() {
        assert(after =~= seq![B_RBRACKET]);
        assert(after[0] == B_RBRACKET);
    } else {
        assert(after =~= seq![B_COMMA] + seq_tail(data));
        assert(after[0] == B_COMMA);
        assert(after[0] != B_RBRACKET);
        assert(seq![B_LBRACKET] + after.skip(1) =~= data);
    }
}

/// Serializing a well-formed message and parsing the result yields the same
/// message again.
pub proof fn lemma_rt_message(m: MessageView)
    requires
        wf_message(m),
    ensures
        spec_parse_message(ser_message(m)) == Result::<MessageView, SocketIoClientError>::Ok(m),
{
    let s = ser_message(m);
    match m {
        MessageView::Connect { namespace, sid } => {
            let payload = match sid {
                Option::Some(sv) => ser_connect_payload(sv),
                Option::None => Seq::<u8>::empty(),
            };
            assert(s.skip(1) =~= ser_ns_prefix(namespace, payload) + payload);
            lemma_split_of_ser(namespace, payload);
            match sid {
                Option::Some(sv) => {
                    let l = sv.len() as int;
                    assert(payload.len() == 10 + l);
                    assert(payload.subrange(0, 8) =~= seq![123u8] + lit_sid_key());
                    assert(payload[8 + l] == B_QUOTE);
                    assert forall|j: int| 8 <= j < 8 + l implies payload[j] != B_QUOTE by {
                        assert(payload[j] == sv[j - 8]);
                    }
                    lemma_find_byte_unique(payload, 8, B_QUOTE, 8 + l);
                    assert(payload[payload.len() - 1] == B_RBRACE);
                    assert(connect_payload_shape(payload));
                    assert(payload.subrange(8, payload.len() - 2) =~= sv);
                },
                Option::None => {
                    assert(!connect_payload_shape(payload));
                },
            }
        },
        MessageView::Disconnect { namespace } => {
            assert(s.skip(1) =~= ser_ns_prefix(namespace, Seq::<u8>::empty())
                + Seq::<u8>::empty());
            lemma_split_of_ser(namespace, Seq::<u8>::empty());
        },
        MessageView::Event { namespace, event_name, data, ack } => {
            let args = ser_event_args(event_name, data);
            let tail = ser_ack_opt(ack) + args;
            assert(s.skip(1) =~= ser_ns_prefix(namespace, tail) + tail);
            lemma_split_of_ser(namespace, tail);
            assert(args[0] == B_LBRACKET);
            assert(!is_digit(B_LBRACKET));
            match ack {
                Option::Some(k) => {
                    lemma_dec_digits_wf(k as nat);
                    let d = dec_digits(k as nat);
                    assert(tail.subrange(0, d.len() as int) =~= d);
                    assert(tail.subrange(d.len() as int, tail.len() as int) =~= args);
                    lemma_digit_run_of_concat(tail, 0, d, args);
                    assert(digit_run_end(tail, 0) == d.len());
                    assert(dec_value(tail.subrange(0, d.len() as int)) == k as nat);
                    assert(tail.skip(d.len() as int) =~= args);
                },
                Option::None => {
                    assert(tail =~= args);
                    assert(!is_digit(tail[0]));
                    assert(digit_run_end(tail, 0) == 0);
                    assert(tail.skip(0) =~= args);
                },
            }
            lemma_rt_event_args(namespace, ack, event_name, data);
        },
        MessageView::Ack { namespace, data, ack } => {
            lemma_dec_digits_wf(ack as nat);
            let d = dec_digits(ack as nat);
            let tail = d + data;
            assert(s.skip(1) =~= ser_ns_prefix(namespace, tail) + tail);
            lemma_split_of_ser(namespace, tail);
            assert(tail.subrange(0, d.len() as int) =~= d);
            assert(tail.subrange(d.len() as int, tail.len() as int) =~= data);
            lemma_digit_run_of_concat(tail, 0, d, data);
            assert(digit_run_end(tail, 0) == d.len());
            assert(dec_value(tail.subrange(0, d.len() as int)) == ack as nat);
            assert(tail.skip(d.len() as int) =~= data);
        },
        MessageView::ConnectError { namespace, message } => {
            let payload = ser_connect_error_payload(message);
            assert(s.skip(1) =~= ser_ns_prefix(namespace, payload) + payload);
            lemma_split_of_ser(namespace, payload);
            if no_quote(message) {
                let l = message.len() as int;
                assert(payload.len() == 14 + l);
                assert(payload.subrange(0, 12) =~= lit_message_obj_prefix());
                assert(payload[12 + l] == B_QUOTE);
                assert forall|j: int| 12 <= j < 12 + l implies payload[j] != B_QUOTE by {
                    assert(payload[j] == message[j - 12]);
                }
                lemma_find_byte_unique(payload, 12, B_QUOTE, 12 + l);
                assert(payload[payload.len() - 1] == B_RBRACE);
                assert(connect_error_payload_shape(payload));
                assert(payload.subrange(12, payload.len() - 2) =~= message);
            } else {
                assert(payload =~= message);
                assert(!connect_error_payload_shape(payload));
            }
        },
        MessageView::BinaryEvent { raw } => {
            assert(s.skip(1) =~= raw);
        },
        MessageView::BinaryAck { raw } => {
            assert(s.skip(1) =~= raw);
        },
    }
}

/// Every message the parser yields is well-formed.
pub proof fn lemma_parse_message_wf(s: Seq<u8>, m: MessageView)
    requires
        spec_parse_message(s) == Result::<MessageView, SocketIoClientError>::Ok(m),
    ensures
        wf_message(m),
{
    let r = s.skip(1);
    let t = s[0];
    let ns = split_namespace(r).0;
    let p = split_namespace(r).1;
    if r.len() > 0 && r[0] == B_SLASH {
        lemma_find_byte_from_props(r, 0, B_COMMA);
        match find_byte_from(r, 0, B_COMMA) {
            Option::Some(j) => {
                assert(ns =~= r.subrange(0, j));
                assert(ns[0] == r[0]);
                assert forall|i: int| 0 <= i < ns.len() implies ns[i] != B_COMMA by {
                    assert(ns[i] == r[i]);
                }
            },
            Option::None => {
                assert(ns =~= r);
                assert forall|i: int| 0 <= i < ns.len() implies ns[i] != B_COMMA by {
                    assert(ns[i] == r[i]);
                }
            },
        }
        assert(wf_namespace(ns));
    } else {
        assert(ns =~= default_namespace());
        assert(wf_namespace(ns));
    }
    if t == 48 {
        if connect_payload_shape(p) {
            lemma_find_byte_from_props(p, 8, B_QUOTE);
            let sv = p.subrange(8, p.len() - 2);
            assert forall|i: int| 0 <= i < sv.len() implies sv[i] != B_QUOTE by {
                assert(sv[i] == p[8 + i]);
            }
        }
    } else if t == 50 {
        let e = digit_run_end(p, 0);
        crate::byte_scan::lemma_digit_run_end_bounds(p, 0);
        let payload = p.skip(e);
        if payload.len() >= 2 && payload[0] == B_LBRACKET && payload[1] == B_QUOTE {
            lemma_find_byte_from_props(payload, 2, B_QUOTE);
            match find_byte_from(payload, 2, B_QUOTE) {
                Option::Some(q) => {
                    let name = payload.subrange(2, q);
                    assert forall|i: int| 0 <= i < name.len() implies name[i] != B_QUOTE by {
                        assert(name[i] == payload[2 + i]);
                    }
                },
                Option::None => {},
            }
        }
    } else if t == 51 {
        let e = digit_run_end(p, 0);
        crate::byte_scan::lemma_digit_run_end_bounds(p, 0);
    } else if t == 52 {
        if connect_error_payload_shape(p) {
            lemma_find_byte_from_props(p, 12, B_QUOTE);
            let msg = p.subrange(12, p.len() - 2);
            assert forall|i: int| 0 <= i < msg.len() implies msg[i] != B_QUOTE by {
                assert(msg[i] == p[12 + i]);
            }
        }
    }
}

/// Where the double quotes sit in a canonical OPEN payload.
spec fn open_quote_set(s: Seq<u8>, sid_len: int, d1: int, d2: int, has_mp: bool, i: int) -> bool {
    let a = 8 + sid_len;
    let p1 = a + 2;
    let p2 = p1 + 15 + d1 + 1;
    let p3 = p2 + 14 + d2 + 1;
    i == 1 || i == 5 || i == 7 || i == a || i == p1 || i == p1 + 13 || i == p2 || i == p2 + 12
        || (has_mp && (i == p3 || i == p3 + 11))
}

/// The canonical OPEN payload round-trips: its sid and numeric fields are
/// found again exactly where the serializer put them.
#[verifier::rlimit(100)]
#[verifier::spinoff_prover]
pub proof fn lemma_rt_open(m: OpenModelView)
    requires
        wf_open_model(m),
    ensures
        spec_parse_open(ser_open_payload(m)) == Result::<OpenModelView, SocketIoClientError>::Ok(
            m,
        ),
{
    let s = ser_open_payload(m);
    let k7 = lit_sid_key();
    let k15 = lit_ping_interval_key();
    let k14 = lit_ping_timeout_key();
    let k13 = lit_max_payload_key();
    let sid = m.sid;
    let dd1 = dec_digits(m.ping_interval as nat);
    let dd2 = dec_digits(m.ping_timeout as nat);
    lemma_dec_digits_wf(m.ping_interval as nat);
    lemma_dec_digits_wf(m.ping_timeout as nat);
    let l = sid.len() as int;
    let d1 = dd1.len() as int;
    let d2 = dd2.len() as int;
    let a = 8 + l;
    let p1 = a + 2;
    let q1 = p1 + 15;
    let p2 = q1 + d1 + 1;
    let q2 = p2 + 14;
    let p3 = q2 + d2 + 1;
    let has_mp = m.max_payload is Some;
    // Lay the payload out region by region.
    assert(s[0] == 123);
    assert(s.subrange(1, 8) =~= k7);
    assert(s.subrange(8, a) =~= sid);
    assert(s[a] == B_QUOTE);
    assert(s[a + 1] == B_COMMA);
    assert(s.subrange(p1, q1) =~= k15);
    assert(s.subrange(q1, q1 + d1) =~= dd1);
    assert(s[q1 + d1] == B_COMMA);
    assert(s.subrange(p2, q2) =~= k14);
    assert(s.subrange(q2, q2 + d2) =~= dd2);
    match m.max_payload {
        Option::Some(mp) => {
            let dd3 = dec_digits(mp as nat);
            lemma_dec_digits_wf(mp as nat);
            let d3 = dd3.len() as int;
            assert(s[q2 + d2] == B_COMMA);
            assert(s.subrange(p3, p3 + 13) =~= k13);
            assert(s.subrange(p3 + 13, p3 + 13 + d3) =~= dd3);
            assert(s[s.len() - 1] == B_RBRACE);
            assert(s.len() == p3 + 13 + d3 + 1);
        },
        Option::None => {
            assert(s[s.len() - 1] == B_RBRACE);
            assert(s.len() == q2 + d2 + 1);
        },
    }
    // Only the listed positions hold a double quote.
    assert forall|i: int| 0 <= i < s.len() && s[i] == B_QUOTE implies open_quote_set(
        s,
        l,
        d1,
        d2,
        has_mp,
        i,
    ) by {
        if 8 <= i < a {
            assert(s[i] == sid[i - 8]);
        } else if q1 <= i < q1 + d1 {
            assert(s[i] == dd1[i - q1]);
            assert(is_digit(dd1[i - q1]));
        } else if q2 <= i < q2 + d2 {
            assert(s[i] == dd2[i - q2]);
            assert(is_digit(dd2[i - q2]));
        } else if has_mp && p3 + 13 <= i < s.len() - 1 {
            let dd3 = dec_digits(m.max_payload->0 as nat);
            lemma_dec_digits_wf(m.max_payload->0 as nat);
            assert(s[i] == dd3[i - (p3 + 13)]);
            assert(is_digit(dd3[i - (p3 + 13)]));
        } else if 1 <= i < 8 {
            assert(s[i] == k7[i - 1]);
        } else if p1 <= i < q1 {
            assert(s[i] == k15[i - p1]);
        } else if p2 <= i < q2 {
            assert(s[i] == k14[i - p2]);
        } else if has_mp && p3 <= i < p3 + 13 {
            assert(s[i] == k13[i - p3]);
        }
    }
    // The sid is found at its place.
    assert(matches_at(s, k7, 1)) by {
        assert(s.subrange(1, 8) =~= k7);
    }
    assert(s[0] == 123);
    lemma_find_pat_unique(s, k7, 1);
    assert forall|j: int| 8 <= j < a implies s[j] != B_QUOTE by {
        assert(s[j] == sid[j - 8]);
    }
    lemma_find_byte_unique(s, 8, B_QUOTE, a);
    assert(a != 8);
    assert(s.subrange(8, a) =~= sid);
    // No key pattern matches at the shared early quote positions.
    assert(s[2] == 115);
    assert(s[6] == 58);
    assert(s[a + 1] == B_COMMA);
    // pingInterval is found at its place.
    assert forall|i: int| 0 <= i < p1 implies !matches_at(s, k15, i) by {
        if matches_at(s, k15, i) {
            assert(s.subrange(i, i + 15)[0] == k15[0]);
            assert(s[i] == B_QUOTE);
            assert(open_quote_set(s, l, d1, d2, has_mp, i));
            if i == 1 {
                assert(s.subrange(i, i + 15)[1] == k15[1]);
            } else if i == 5 {
                assert(s.subrange(i, i + 15)[1] == k15[1]);
            } else if i == 7 {
                if l + 2 < 15 {
                    assert(s.subrange(i, i + 15)[l + 2] == k15[l + 2]);
                    assert(s[a + 1] == B_COMMA);
                } else {
                    assert(s.subrange(i, i + 15)[13] == k15[13]);
                    assert(s[20] == sid[12]);
                }
            } else if i == a {
                assert(s.subrange(i, i + 15)[1] == k15[1]);
                assert(s[a + 1] == B_COMMA);
            }
        }
    }
    assert(matches_at(s, k15, p1)) by {
        assert(s.subrange(p1, p1 + 15) =~= k15);
    }
    lemma_find_pat_unique(s, k15, p1);
    assert(spec_num_field(s, k15) == NumField::Val(m.ping_interval)) by {
        lemma_digit_run_of_concat(s, q1, dd1, s.skip(q1 + d1));
        assert(s.skip(q1 + d1)[0] == s[q1 + d1]);
        assert(s.subrange(q1, q1 + d1) =~= dd1);
    }
    // pingTimeout is found at its place.
    assert forall|i: int| 0 <= i < p2 implies !matches_at(s, k14, i) by {
        if matches_at(s, k14, i) {
            assert(s.subrange(i, i + 14)[0] == k14[0]);
            assert(s[i] == B_QUOTE);
            assert(open_quote_set(s, l, d1, d2, has_mp, i));
            if i == 1 {
                assert(s.subrange(i, i + 14)[1] == k14[1]);
            } else if i == 5 {
                assert(s.subrange(i, i + 14)[1] == k14[1]);
            } else if i == 7 {
                if l + 2 < 14 {
                    assert(s.subrange(i, i + 14)[l + 2] == k14[l + 2]);
                    assert(s[a + 1] == B_COMMA);
                } else {
                    assert(s.subrange(i, i + 14)[12] == k14[12]);
                    assert(s[19] == sid[11]);
                }
            } else if i == a {
                assert(s.subrange(i, i + 14)[1] == k14[1]);
                assert(s[a + 1] == B_COMMA);
            } else if i == p1 {
                assert(s.subrange(i, i + 14)[5] == k14[5]);
                assert(s[p1 + 5] == k15[5]);
            } else if i == p1 + 13 {
                assert(s.subrange(i, i + 14)[1] == k14[1]);
                assert(s[p1 + 14] == k15[14]);
            }
        }
    }
    assert(matches_at(s, k14, p2)) by {
        assert(s.subrange(p2, p2 + 14) =~= k14);
    }
    lemma_find_pat_unique(s, k14, p2);
    assert(spec_num_field(s, k14) == NumField::Val(m.ping_timeout)) by {
        lemma_digit_run_of_concat(s, q2, dd2, s.skip(q2 + d2));
        assert(s.skip(q2 + d2)[0] == s[q2 + d2]);
        assert(s.subrange(q2, q2 + d2) =~= dd2);
    }
    // maxPayload is found iff it was written.
    assert forall|i: int| 0 <= i < p3 implies !matches_at(s, k13, i) by {
        if matches_at(s, k13, i) {
            assert(s.subrange(i, i + 13)[0] == k13[0]);
            assert(s[i] == B_QUOTE);
            assert(open_quote_set(s, l, d1, d2, has_mp, i));
            if i == 1 {
                assert(s.subrange(i, i + 13)[1] == k13[1]);
            } else if i == 5 {
                assert(s.subrange(i, i + 13)[1] == k13[1]);
            } else if i == 7 {
                if l + 2 < 13 {
                    assert(s.subrange(i, i + 13)[l + 2] == k13[l + 2]);
                    assert(s[a + 1] == B_COMMA);
                } else {
                    assert(s.subrange(i, i + 13)[11] == k13[11]);
                    assert(s[18] == sid[10]);
                }
            } else if i == a {
                assert(s.subrange(i, i + 13)[1] == k13[1]);
                assert(s[a + 1] == B_COMMA);
            } else if i == p1 {
                assert(s.subrange(i, i + 13)[1] == k13[1]);
                assert(s[p1 + 1] == k15[1]);
            } else if i == p1 + 13 {
                assert(s.subrange(i, i + 13)[1] == k13[1]);
                assert(s[p1 + 14] == k15[14]);
            } else if i == p2 {
                assert(s.subrange(i, i + 13)[1] == k13[1]);
                assert(s[p2 + 1] == k14[1]);
            } else if i == p2 + 12 {
                assert(s.subrange(i, i + 13)[1] == k13[1]);
                assert(s[p2 + 13] == k14[13]);
            }
        }
    }
    match m.max_payload {
        Option::Some(mp) => {
            let dd3 = dec_digits(mp as nat);
            lemma_dec_digits_wf(mp as nat);
            let d3 = dd3.len() as int;
            assert(matches_at(s, k13, p3)) by {
                assert(s.subrange(p3, p3 + 13) =~= k13);
            }
            lemma_find_pat_unique(s, k13, p3);
            assert(spec_num_field(s, k13) == NumField::Val(mp)) by {
                lemma_digit_run_of_concat(s, p3 + 13, dd3, s.skip(p3 + 13 + d3));
                assert(s.skip(p3 + 13 + d3)[0] == s[p3 + 13 + d3]);
                assert(s.subrange(p3 + 13, p3 + 13 + d3) =~= dd3);
            }
        },
        Option::None => {
            assert(find_pat_from(s, k13, 0) is None) by {
                lemma_find_pat_from_props(s, k13, 0);
                match find_pat_from(s, k13, 0) {
                    Option::Some(k) => {
                        if k < p3 {
                            assert(!matches_at(s, k13, k));
                        } else {
                            assert(k + 13 > s.len());
                        }
                    },
                    Option::None => {},
                }
            }
        },
    }
}

/// Every packet the parser yields is well-formed.
pub proof fn lemma_parse_contract_wf(s: Seq<u8>, c: ContractView)
    requires
        spec_parse_contract(s) == Result::<ContractView, SocketIoClientError>::Ok(c),
    ensures
        wf_contract(c),
{
    let t = s[0];
    let r = s.skip(1);
    if t == 48 {
        match find_pat_from(r, lit_sid_key(), 0) {
            Option::Some(i) => {
                lemma_find_byte_from_props(r, i + 7, B_QUOTE);
                match find_byte_from(r, i + 7, B_QUOTE) {
                    Option::Some(j) => {
                        if j != i + 7 {
                            let sv = r.subrange(i + 7, j);
                            assert(sv.len() >= 1);
                            assert forall|x: int| 0 <= x < sv.len() implies sv[x] != B_QUOTE by {
                                assert(sv[x] == r[i + 7 + x]);
                            }
                        }
                    },
                    Option::None => {},
                }
            },
            Option::None => {},
        }
    } else if t == 52 {
        match spec_parse_message(r) {
            Result::Ok(m) => {
                lemma_parse_message_wf(r, m);
            },
            Result::Err(e) => {},
        }
    }
}

/// Serializing a well-formed packet and parsing the result yields the same
/// packet: the codec is lossless on everything it can produce.
pub proof fn lemma_rt_contract(c: ContractView)
    requires
        wf_contract(c),
    ensures
        spec_parse_contract(ser_contract(c)) == Result::<ContractView, SocketIoClientError>::Ok(
            c,
        ),
{
    let s = ser_contract(c);
    match c {
        ContractView::Open(m) => {
            assert(s.skip(1) =~= ser_open_payload(m));
            lemma_rt_open(m);
        },
        ContractView::Close => {
            assert(s.skip(1) =~= Seq::<u8>::empty());
        },
        ContractView::Ping { with_probe } => {
            if with_probe {
                assert(s.skip(1) =~= crate::codec::lit_probe());
            } else {
                assert(s.skip(1) =~= Seq::<u8>::empty());
            }
        },
        ContractView::Pong { with_probe } => {
            if with_probe {
                assert(s.skip(1) =~= crate::codec::lit_probe());
            } else {
                assert(s.skip(1) =~= Seq::<u8>::empty());
            }
        },
        ContractView::Message(m) => {
            assert(s.skip(1) =~= ser_message(m));
            lemma_rt_message(m);
        },
        ContractView::Upgrade => {
            assert(s.skip(1) =~= Seq::<u8>::empty());
        },
        ContractView::Noop => {
            assert(s.skip(1) =~= Seq::<u8>::empty());
        },
    }
}

/// Two namespaces serialize to the same CONNECT frame only if they are the
/// same namespace: the frame either is the bare type bytes (default
/// namespace) or carries the namespace verbatim up to the closing comma.
pub proof fn lemma_connect_frame_injective(ns1: Seq<u8>, ns2: Seq<u8>)
    requires
        ser_contract(
            ContractView::Message(MessageView::Connect { namespace: ns1, sid: Option::None }),
        ) == ser_contract(
            ContractView::Message(MessageView::Connect { namespace: ns2, sid: Option::None }),
        ),
    ensures
        ns1 == ns2,
{
    let f1 = ser_contract(
        ContractView::Message(MessageView::Connect { namespace: ns1, sid: Option::None }),
    );
    let f2 = ser_contract(
        ContractView::Message(MessageView::Connect { namespace: ns2, sid: Option::None }),
    );
    let p1 = ser_ns_prefix(ns1, Seq::<u8>::empty());
    let p2 = ser_ns_prefix(ns2, Seq::<u8>::empty());
    assert(f1 =~= seq![52u8, 48u8] + p1);
    assert(f2 =~= seq![52u8, 48u8] + p2);
    assert(p1 =~= f1.skip(2));
    assert(p2 =~= f2.skip(2));
    assert(p1 == p2);
    if ns1 == default_namespace() {
        if ns2 != default_namespace() {
            assert(p2.len() == ns2.len() + 1);
            assert(p1.len() == 0);
        }
        assert(ns1 =~= ns2);
    } else {
        if ns2 == default_namespace() {
            assert(p1.len() == ns1.len() + 1);
            assert(p2.len() == 0);
        }
        assert(ns2 != default_namespace());
        assert(p1.len() == ns1.len() + 1);
        assert(p2.len() == ns2.len() + 1);
        assert(ns1.len() == ns2.len());
        assert forall|i: int| 0 <= i < ns1.len() implies ns1[i] == ns2[i] by {
            assert(p1[i] == ns1[i]);
            assert(p2[i] == ns2[i]);
        }
        assert(ns1 =~= ns2);
    }
}

/// Parsing then serializing any syntactically valid frame produces a frame
/// that parses back to an equal packet.
pub proof fn lemma_codec_round_trip(s: Seq<u8>, c: ContractView)
    requires
        spec_parse_contract(s) == Result::<ContractView, SocketIoClientError>::Ok(c),
    ensures
        spec_parse_contract(ser_contract(c)) == Result::<ContractView, SocketIoClientError>::Ok(
            c,
        ),
{
    lemma_parse_contract_wf(s, c);
    lemma_rt_contract(c);
}

} // verus!
