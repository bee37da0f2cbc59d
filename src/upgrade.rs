//! The WebSocket opening handshake: which requests may be upgraded, and the accept key.

use vstd::prelude::*;
use sha1::Digest;
use vstd::utf8::encode_utf8;
use crate::apply::attr_set;
use crate::element::attrs_view;
use crate::http::{err_400, Response};

verus! {

/// The GUID that RFC 6455 appends to the client's key.
pub const GUID: &'static str = "258EAFA5-E914-47DA-95CA-C5AB0DC85B11";

/// Why a connection could not be upgraded.
#[derive(Debug, Clone, Copy, PartialEq, Eq, Structural)]
pub enum UpgradeError {
    /// The request does not ask for a WebSocket, or lacks the key to answer it.
    NotUpgradable,
}

/// The SHA-1 digest of a byte sequence.
pub uninterp spec fn sha1_of(b: Seq<u8>) -> Seq<u8>;

/// The standard base64 alphabet.
pub open spec fn b64_alphabet() -> Seq<char> {
    "ABCDEFGHIJKLMNOPQRSTUVWXYZabcdefghijklmnopqrstuvwxyz0123456789+/"@
}

pub open spec fn b64_char(i: nat) -> char {
    b64_alphabet()[i as int]
}

/// The standard base64 text of a byte sequence, padded with `=`: four characters for each
/// three bytes, each the alphabet's character for six bits, high bits first.
pub open spec fn base64_of(b: Seq<u8>) -> Seq<char>
    decreases b.len(),
{
    if b.len() == 0 {
        Seq::empty()
    } else if b.len() == 1 {
        let x = b[0] as nat;
        seq![b64_char(x / 4), b64_char((x % 4) * 16), '=', '=']
    } else if b.len() == 2 {
        let x = b[0] as nat;
        let y = b[1] as nat;
        seq![b64_char(x / 4), b64_char((x % 4) * 16 + y / 16), b64_char((y % 16) * 4), '=']
    } else {
        let x = b[0] as nat;
        let y = b[1] as nat;
        let z = b[2] as nat;
        seq![
            b64_char(x / 4),
            b64_char((x % 4) * 16 + y / 16),
            b64_char((y % 16) * 4 + z / 64),
            b64_char(z % 64),
        ] + base64_of(b.subrange(3, b.len() as int))
    }
}

/// Relies on `sha1::Sha1::digest` (through `digest::Digest::digest`): the 20-byte SHA-1
/// digest of the input.
#[verifier::external_body]
fn sha1_digest(b: &[u8]) -> (r: Vec<u8>)
    ensures
        r@ == sha1_of(b@),
        r@.len() == 20,
{
    sha1::Sha1::digest(b).to_vec()
}

/// Relies on `base64::encode` (`encode_config` with `STANDARD`): the input in the standard
/// alphabet with `=` padding. It panics only when the output length overflows, far beyond the
/// bound here.
#[verifier::external_body]
fn base64_encode(b: &[u8]) -> (r: String)
    requires
        b@.len() <= 4096,
    ensures
        r@ == base64_of(b@),
{
    base64::encode(b)
}

/// The `Sec-WebSocket-Accept` value for a client's `Sec-WebSocket-Key`: the base64 text of
/// the SHA-1 digest of the key followed by the GUID.
pub fn compute_accept_header(key: &str) -> (r: String)
    ensures
        r@ == base64_of(sha1_of(encode_utf8(key@) + encode_utf8(GUID@))),
{
    let mut to_hash = vstd::slice::slice_to_vec(key.as_bytes());
    let mut guid = vstd::slice::slice_to_vec(GUID.as_bytes());
    to_hash.append(&mut guid);
    let digest = sha1_digest(to_hash.as_slice());
    base64_encode(digest.as_slice())
}

/// An ASCII byte compared without regard to case with a lowercase byte `t`.
pub open spec fn ci_byte_eq(c: u8, t: u8) -> bool {
    c == t || (65 <= c <= 90 && c + 32 == t)
}

/// `s` equals the lowercase `t` up to ASCII case.
pub open spec fn ci_eq(s: Seq<u8>, t: Seq<u8>) -> bool {
    s.len() == t.len() && forall|i: int| 0 <= i < s.len() ==> ci_byte_eq(#[trigger] s[i], t[i])
}

/// `s` holds the lowercase `t` at `i`, up to ASCII case.
pub open spec fn ci_at(s: Seq<u8>, t: Seq<u8>, i: int) -> bool {
    0 <= i && i + t.len() <= s.len() && forall|j: int|
        0 <= j < t.len() ==> ci_byte_eq(#[trigger] s[i + j], t[j])
}

/// `s` holds the lowercase `t` somewhere, up to ASCII case.
pub open spec fn ci_contains(s: Seq<u8>, t: Seq<u8>) -> bool {
    exists|i: int| ci_at(s, t, i)
}

fn byte_ci_eq(c: u8, t: u8) -> (r: bool)
    ensures
        r == ci_byte_eq(c, t),
{
    c == t || (65 <= c && c <= 90 && c + 32 == t)
}

fn bytes_ci_at(s: &[u8], t: &[u8], i: usize) -> (r: bool)
    requires
        i + t@.len() <= s@.len(),
    ensures
        r == ci_at(s@, t@, i as int),
{
    let mut j: usize = 0;
    while j < t.len()
        invariant
            0 <= j <= t@.len(),
            i + t@.len() <= s@.len(),
            s@.len() == s.len(),
            forall|m: int| 0 <= m < j ==> ci_byte_eq(#[trigger] s@[i + m], t@[m]),
        decreases t@.len() - j,
    {
        if !byte_ci_eq(s[i + j], t[j]) {
            return false;
        }
        j += 1;
    }
    true
}

fn bytes_ci_contains(s: &[u8], t: &[u8]) -> (r: bool)
    ensures
        r == ci_contains(s@, t@),
{
    if t.len() > s.len() {
        return false;
    }
    let mut i: usize = 0;
    while i <= s.len() - t.len()
        invariant
            t@.len() <= s@.len(),
            0 <= i <= s@.len() - t@.len() + 1,
            forall|m: int| 0 <= m < i ==> !ci_at(s@, t@, m),
        decreases s@.len() - t@.len() + 1 - i,
    {
        if bytes_ci_at(s, t, i) {
            return true;
        }
        i += 1;
    }
    false
}

/// Whether a request may be upgraded to a WebSocket: its `Upgrade` header is `websocket` and
/// its `Connection` header contains `upgrade`, both regardless of ASCII case. The arguments are
/// the two headers' values, `None` where a header is missing.
pub fn should_upgrade(upgrade: Option<&str>, connection: Option<&str>) -> (r: bool)
    ensures
        r == ((upgrade matches Some(u) && ci_eq(encode_utf8(u@), encode_utf8("websocket"@))) && (
        connection matches Some(c) && ci_contains(encode_utf8(c@), encode_utf8("upgrade"@)))),
{
    let up = match upgrade {
        Some(u) => {
            let b = u.as_bytes();
            let w = "websocket".as_bytes();
            let r = b.len() == w.len() && bytes_ci_at(b, w, 0);
            proof {
                if b@.len() == w@.len() {
                    if ci_at(b@, w@, 0) {
                        assert forall|j: int| 0 <= j < b@.len() implies ci_byte_eq(
                            #[trigger] b@[j],
                            w@[j],
                        ) by {
                            assert(ci_byte_eq(b@[0 + j], w@[j]));
                        }
                    }
                    if ci_eq(b@, w@) {
                        assert forall|j: int| 0 <= j < w@.len() implies ci_byte_eq(
                            #[trigger] b@[0 + j],
                            w@[j],
                        ) by {
                            assert(ci_byte_eq(b@[j], w@[j]));
                        }
                    }
                }
            }
            r
        },
        None => false,
    };
    let conn = match connection {
        Some(c) => bytes_ci_contains(c.as_bytes(), "upgrade".as_bytes()),
        None => false,
    };
    up && conn
}

/// The answer to a request to upgrade: with the client's `Sec-WebSocket-Key`, the
/// `101 Web Socket Protocol Handshake` response carrying the accept key, and `true`; without
/// one, the `400` response and `false`.
pub fn upgrade_response(key: Option<&str>) -> (r: (Response, bool))
    ensures
        match key {
            Some(k) => {
                &&& r.1
                &&& r.0.status == 101
                &&& r.0.reason@ == "Web Socket Protocol Handshake"@
                &&& attrs_view(r.0.headers@) == attr_set(
                    attr_set(
                        attr_set(
                            Seq::empty(),
                            "Sec-WebSocket-Accept"@,
                            base64_of(sha1_of(encode_utf8(k@) + encode_utf8(GUID@))),
                        ),
                        "Upgrade"@,
                        "websocket"@,
                    ),
                    "Connection"@,
                    "Upgrade"@,
                )
            },
            None => !r.1 && r.0.status == 400,
        },
{
    match key {
        Some(k) => {
            let accept = compute_accept_header(k);
            let b0 = Response::build();
            proof {
                assert(attrs_view(b0.headers@) =~= Seq::empty());
            }
            let b1 = b0.header("Sec-WebSocket-Accept", accept.as_str());
            let b2 = b1.header("Upgrade", "websocket");
            let b3 = b2.header("Connection", "Upgrade");
            let b4 = b3.status(101, "Web Socket Protocol Handshake");
            let res = b4.build();
            (res, true)
        },
        None => (err_400(), false),
    }
}

} // verus!
