//! MIME types and their serialization.

use vstd::prelude::*;
use vstd::string::StrSliceExecFns;
use crate::text::{push_char, push_str};

verus! {

/// The name of a MIME parameter.
#[derive(Debug, Clone)]
pub struct ParamName(pub String);

/// The value of a MIME parameter.
#[derive(Debug, Clone)]
pub struct ParamValue(pub String);

/// A MIME type.
#[derive(Debug)]
pub struct Mime {
    pub essence: String,
    pub basetype: String,
    pub subtype: String,
    pub is_utf8: bool,
    pub params: Vec<(ParamName, ParamValue)>,
}

/// An HTTP token code point: the characters that a parameter value may hold unquoted.
pub open spec fn is_token_char(c: char) -> bool {
    c == '!' || c == '#' || c == '$' || c == '%' || c == '&' || c == '\'' || c == '*' || c == '+'
        || c == '-' || c == '.' || c == '^' || c == '_' || c == '`' || c == '|' || c == '~' || (
    'a' <= c && c <= 'z') || ('A' <= c && c <= 'Z') || ('0' <= c && c <= '9')
}

/// A value with each `"` and `\` preceded by a backslash.
pub open spec fn escape_value(v: Seq<char>) -> Seq<char>
    decreases v.len(),
{
    if v.len() == 0 {
        Seq::empty()
    } else {
        escape_value(v.drop_last()) + if v.last() == '"' || v.last() == '\\' {
            seq!['\\', v.last()]
        } else {
            seq![v.last()]
        }
    }
}

pub open spec fn all_token(v: Seq<char>) -> bool {
    forall|i: int| 0 <= i < v.len() ==> is_token_char(#[trigger] v[i])
}

/// `;name=value`, with the value quoted and escaped unless it is a non-empty token.
pub open spec fn param_text(n: Seq<char>, v: Seq<char>) -> Seq<char> {
    if v.len() > 0 && all_token(v) {
        seq![';'] + n + seq!['='] + v
    } else {
        seq![';'] + n + seq!['=', '"'] + escape_value(v) + seq!['"']
    }
}

pub open spec fn params_view(p: Seq<(ParamName, ParamValue)>) -> Seq<(Seq<char>, Seq<char>)> {
    p.map_values(|x: (ParamName, ParamValue)| (x.0.0@, x.1.0@))
}

pub open spec fn params_text(p: Seq<(Seq<char>, Seq<char>)>) -> Seq<char>
    decreases p.len(),
{
    if p.len() == 0 {
        Seq::empty()
    } else {
        params_text(p.drop_last()) + param_text(p.last().0, p.last().1)
    }
}

/// The WHATWG serialization of a MIME type: the essence, `;charset=utf-8` for UTF-8 types,
/// then each parameter.
pub open spec fn mime_text(m: Mime) -> Seq<char> {
    m.essence@ + (if m.is_utf8 {
        ";charset=utf-8"@
    } else {
        Seq::empty()
    }) + params_text(params_view(m.params@))
}

/// Whether `c` is an HTTP token code point.
pub fn is_http_token_code_point(c: char) -> (r: bool)
    ensures
        r == is_token_char(c),
{
    c == '!' || c == '#' || c == '$' || c == '%' || c == '&' || c == '\'' || c == '*' || c == '+'
        || c == '-' || c == '.' || c == '^' || c == '_' || c == '`' || c == '|' || c == '~' || (
    'a' <= c && c <= 'z') || ('A' <= c && c <= 'Z') || ('0' <= c && c <= '9')
}

fn all_token_exec(v: &str) -> (r: bool)
    ensures
        r == all_token(v@),
{
    let n = v.unicode_len();
    let mut i: usize = 0;
    while i < n
        invariant
            0 <= i <= n,
            n == v@.len(),
            forall|j: int| 0 <= j < i ==> is_token_char(#[trigger] v@[j]),
        decreases n - i,
    {
        if !is_http_token_code_point(v.get_char(i)) {
            return false;
        }
        i += 1;
    }
    true
}

fn push_escaped(out: &mut String, v: &str)
    ensures
        final(out)@ == old(out)@ + escape_value(v@),
{
    let n = v.unicode_len();
    let mut i: usize = 0;
    while i < n
        invariant
            0 <= i <= n,
            n == v@.len(),
            out@ == old(out)@ + escape_value(v@.take(i as int)),
        decreases n - i,
    {
        let c = v.get_char(i);
        proof {
            assert(v@.take(i + 1).drop_last() =~= v@.take(i as int));
        }
        if c == '"' || c == '\\' {
            push_char(out, '\\');
        }
        push_char(out, c);
        proof {
            assert(out@ =~= old(out)@ + escape_value(v@.take(i + 1)));
        }
        i += 1;
    }
    proof {
        assert(v@.take(n as int) =~= v@);
    }
}

impl Mime {
    /// `text/html`, UTF-8.
    pub fn html() -> (r: Mime)
        ensures
            r.essence@ == "text/html"@,
            r.basetype@ == "text"@,
            r.subtype@ == "html"@,
            r.is_utf8,
            r.params@.len() == 0,
    {
        Mime {
            essence: "text/html".to_owned(),
            basetype: "text".to_owned(),
            subtype: "html".to_owned(),
            is_utf8: true,
            params: Vec::new(),
        }
    }

    /// `text/plain`, UTF-8.
    pub fn plain() -> (r: Mime)
        ensures
            r.essence@ == "text/plain"@,
            r.basetype@ == "text"@,
            r.subtype@ == "plain"@,
            r.is_utf8,
            r.params@.len() == 0,
    {
        Mime {
            essence: "text/plain".to_owned(),
            basetype: "text".to_owned(),
            subtype: "plain".to_owned(),
            is_utf8: true,
            params: Vec::new(),
        }
    }

    /// `application/octet-stream`.
    pub fn byte_stream() -> (r: Mime)
        ensures
            r.essence@ == "application/octet-stream"@,
            r.basetype@ == "application"@,
            r.subtype@ == "octet-stream"@,
            !r.is_utf8,
            r.params@.len() == 0,
    {
        Mime {
            essence: "application/octet-stream".to_owned(),
            basetype: "application".to_owned(),
            subtype: "octet-stream".to_owned(),
            is_utf8: false,
            params: Vec::new(),
        }
    }

    /// The serialized MIME type, as sent in a `Content-Type` header.
    pub fn to_string(&self) -> (r: String)
        ensures
            r@ == mime_text(*self),
    {
        let mut out = self.essence.clone();
        if self.is_utf8 {
            push_str(&mut out, ";charset=utf-8");
        }
        let ghost head = out@;
        let ghost pv = params_view(self.params@);
        let mut i: usize = 0;
        while i < self.params.len()
            invariant
                0 <= i <= self.params@.len(),
                pv == params_view(self.params@),
                out@ == head + params_text(pv.take(i as int)),
            decreases self.params@.len() - i,
        {
            let name = self.params[i].0.0.as_str();
            let value = self.params[i].1.0.as_str();
            proof {
                assert(pv.take(i + 1).drop_last() =~= pv.take(i as int));
            }
            let ghost before = out@;
            if value.unicode_len() > 0 && all_token_exec(value) {
                push_str(&mut out, ";");
                push_str(&mut out, name);
                push_str(&mut out, "=");
                push_str(&mut out, value);
            } else {
                push_str(&mut out, ";");
                push_str(&mut out, name);
                push_str(&mut out, "=\"");
                push_escaped(&mut out, value);
                push_str(&mut out, "\"");
            }
            proof {
                reveal_strlit(";");
                reveal_strlit("=");
                reveal_strlit("=\"");
                reveal_strlit("\"");
                assert(out@ =~= before + param_text(name@, value@));
                assert(out@ =~= head + params_text(pv.take(i + 1)));
            }
            i += 1;
        }
        proof {
            assert(pv.take(i as int) =~= pv);
        }
        out
    }
}

} // verus!
