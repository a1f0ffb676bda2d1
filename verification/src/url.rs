//! Handshake URL assembly: path normalization and query-string composition.
//!
//! The server URL is normalized to end with `/`, the handshake path is
//! appended with at most one leading `/` collapsed, a trailing `/` is
//! ensured, and the Engine.IO query parameters are appended with `?` or `&`
//! as the URL requires.  An empty handshake path falls back to
//! `socket.io/`.

use vstd::prelude::*;
use crate::frames::find_byte;

verus! {

/// The literal `socket.io/`.
pub open spec fn default_handshake_path() -> Seq<u8> {
    seq![115u8, 111u8, 99u8, 107u8, 101u8, 116u8, 46u8, 105u8, 111u8, 47u8]
}

pub open spec fn ensure_trailing_slash(s: Seq<u8>) -> Seq<u8> {
    if s.len() > 0 && s[s.len() - 1] == 47 {
        s
    } else {
        s.push(47u8)
    }
}

pub open spec fn strip_leading_slash(p: Seq<u8>) -> Seq<u8> {
    if p.len() > 0 && p[0] == 47 {
        p.skip(1)
    } else {
        p
    }
}

/// The normalized handshake URL before the query string.
pub open spec fn handshake_url(server: Seq<u8>, path: Seq<u8>) -> Seq<u8> {
    let p = if path.len() == 0 {
        default_handshake_path()
    } else {
        strip_leading_slash(path)
    };
    ensure_trailing_slash(ensure_trailing_slash(server) + p)
}

/// Builds the URL the WebSocket dials, before query parameters.
pub fn get_url(server_url: &[u8], handshake_path: &[u8]) -> (r: Vec<u8>)
    ensures
        r@ == handshake_url(server_url@, handshake_path@),
{
    let mut out: Vec<u8> = Vec::new();
    out.extend_from_slice(server_url);
    let sl = server_url.len();
    if sl == 0 || server_url[sl - 1] != 47 {
        out.push(47);
    }
    proof {
        assert(out@ =~= ensure_trailing_slash(server_url@));
    }
    if handshake_path.len() == 0 {
        let p: Vec<u8> = vec![115u8, 111u8, 99u8, 107u8, 101u8, 116u8, 46u8, 105u8, 111u8, 47u8];
        proof {
            assert(p@ =~= default_handshake_path());
        }
        out.extend_from_slice(p.as_slice());
    } else if handshake_path[0] == 47 {
        out.extend_from_slice(vstd::slice::slice_subrange(
            handshake_path,
            1,
            handshake_path.len(),
        ));
        proof {
            assert(handshake_path@.subrange(1, handshake_path@.len() as int) =~= strip_leading_slash(
                handshake_path@,
            ));
        }
    } else {
        out.extend_from_slice(handshake_path);
    }
    let ol = out.len();
    if ol == 0 || *vstd::std_specs::vec::vec_index(&out, ol - 1) != 47 {
        out.push(47);
    }
    proof {
        assert(out@ =~= handshake_url(server_url@, handshake_path@));
    }
    out
}

/// The URL already carries a query string.
pub open spec fn has_query(u: Seq<u8>) -> bool {
    exists|i: int| 0 <= i < u.len() && u[i] == 63
}

/// One appended query parameter, introduced by `?` or `&`.
pub open spec fn append_query_param_spec(u: Seq<u8>, key: Seq<u8>, value: Seq<u8>) -> Seq<u8> {
    u + seq![if has_query(u) {
        38u8
    } else {
        63u8
    }] + key + seq![61u8] + value
}

/// Appends `key=value` to a URL with the right separator.
pub fn append_query_param(url: &[u8], key: &[u8], value: &[u8]) -> (r: Vec<u8>)
    ensures
        r@ == append_query_param_spec(url@, key@, value@),
{
    let mut out: Vec<u8> = Vec::new();
    out.extend_from_slice(url);
    proof {
        crate::byte_scan::lemma_find_byte_from_props(url@, 0, 63);
    }
    let sep: u8 = match find_byte(url, 0, 63) {
        Option::Some(_) => 38,
        Option::None => 63,
    };
    out.push(sep);
    out.extend_from_slice(key);
    out.push(61);
    out.extend_from_slice(value);
    proof {
        assert(out@ =~= append_query_param_spec(url@, key@, value@));
    }
    out
}

/// The literal `EIO`.
pub open spec fn lit_eio() -> Seq<u8> {
    seq![69u8, 73u8, 79u8]
}

/// The literal `transport`.
pub open spec fn lit_transport() -> Seq<u8> {
    seq![116u8, 114u8, 97u8, 110u8, 115u8, 112u8, 111u8, 114u8, 116u8]
}

/// The literal `websocket`.
pub open spec fn lit_websocket() -> Seq<u8> {
    seq![119u8, 101u8, 98u8, 115u8, 111u8, 99u8, 107u8, 101u8, 116u8]
}

/// Appends the Engine.IO parameters `EIO=4` and `transport=websocket`.
pub fn append_engine_io_params(url: &[u8]) -> (r: Vec<u8>)
    ensures
        r@ == append_query_param_spec(
            append_query_param_spec(url@, lit_eio(), seq![52u8]),
            lit_transport(),
            lit_websocket(),
        ),
{
    let eio: Vec<u8> = vec![69u8, 73u8, 79u8];
    let four: Vec<u8> = vec![52u8];
    let transport: Vec<u8> = vec![116u8, 114u8, 97u8, 110u8, 115u8, 112u8, 111u8, 114u8, 116u8];
    let websocket: Vec<u8> = vec![119u8, 101u8, 98u8, 115u8, 111u8, 99u8, 107u8, 101u8, 116u8];
    proof {
        assert(eio@ =~= lit_eio());
        assert(four@ =~= seq![52u8]);
        assert(transport@ =~= lit_transport());
        assert(websocket@ =~= lit_websocket());
    }
    let step = append_query_param(url, eio.as_slice(), four.as_slice());
    append_query_param(step.as_slice(), transport.as_slice(), websocket.as_slice())
}

} // verus!
