//! The plain-data side of HTTP: methods, bodies, responses and their builder.

use vstd::prelude::*;
use crate::apply::{attr_set, set_pair};
use crate::element::attrs_view;
use crate::message::{string_from_utf8, utf8_decode};
use crate::mime::{mime_text, Mime};
use crate::upgrade::ci_eq;
use vstd::utf8::encode_utf8;

verus! {

/// An HTTP method.
#[derive(Debug, Clone)]
pub enum Method {
    Get,
    Post,
    Head,
    OtherMethod(String),
}

pub open spec fn method_text(m: Method) -> Seq<char> {
    match m {
        Method::Get => "GET"@,
        Method::Post => "POST"@,
        Method::Head => "HEAD /"@,
        Method::OtherMethod(name) => name@,
    }
}

fn bytes_ci_eq(s: &[u8], t: &[u8]) -> (r: bool)
    ensures
        r == ci_eq(s@, t@),
{
    if s.len() != t.len() {
        return false;
    }
    let mut i: usize = 0;
    while i < s.len()
        invariant
            s@.len() == t@.len(),
            0 <= i <= s@.len(),
            forall|j: int| 0 <= j < i ==> crate::upgrade::ci_byte_eq(#[trigger] s@[j], t@[j]),
        decreases s@.len() - i,
    {
        if !(s[i] == t[i] || (65 <= s[i] && s[i] <= 90 && s[i] + 32 == t[i])) {
            return false;
        }
        i += 1;
    }
    true
}

impl Method {
    /// `GET` and `POST` in any ASCII case name those methods; any other name is kept as it is.
    pub fn new_from_str(s: &str) -> (r: Method)
        ensures
            ci_eq(encode_utf8(s@), encode_utf8("get"@)) ==> r is Get,
            !ci_eq(encode_utf8(s@), encode_utf8("get"@)) && ci_eq(
                encode_utf8(s@),
                encode_utf8("post"@),
            ) ==> r is Post,
            !ci_eq(encode_utf8(s@), encode_utf8("get"@)) && !ci_eq(
                encode_utf8(s@),
                encode_utf8("post"@),
            ) ==> (r matches Method::OtherMethod(n) && n@ == s@),
    {
        if bytes_ci_eq(s.as_bytes(), "get".as_bytes()) {
            Method::Get
        } else if bytes_ci_eq(s.as_bytes(), "post".as_bytes()) {
            Method::Post
        } else {
            Method::OtherMethod(s.to_owned())
        }
    }

    /// Appends the method as it opens a request line.
    pub fn write(&self, out: &mut String)
        ensures
            final(out)@ == old(out)@ + method_text(*self),
    {
        match self {
            Method::Get => crate::text::push_str(out, "GET"),
            Method::Post => crate::text::push_str(out, "POST"),
            Method::Head => crate::text::push_str(out, "HEAD /"),
            Method::OtherMethod(name) => crate::text::push_str(out, name.as_str()),
        }
    }
}

/// A message body: its bytes, their MIME type, and the declared length, which caps what is
/// read.
#[derive(Debug)]
pub struct Body {
    pub bytes: Vec<u8>,
    pub mime: Mime,
    pub length: Option<usize>,
}

/// What reading the body yields: its bytes up to the declared length.
pub open spec fn body_content(b: Body) -> Seq<u8> {
    match b.length {
        Some(n) => if n < b.bytes@.len() {
            b.bytes@.take(n as int)
        } else {
            b.bytes@
        },
        None => b.bytes@,
    }
}

pub open spec fn is_byte_stream(m: Mime) -> bool {
    m.essence@ == "application/octet-stream"@ && !m.is_utf8 && m.params@.len() == 0
}

impl Body {
    /// A body with nothing in it.
    pub fn empty() -> (r: Body)
        ensures
            body_content(r).len() == 0,
            r.length == Some(0usize),
            is_byte_stream(r.mime),
    {
        Body { bytes: Vec::new(), mime: Mime::byte_stream(), length: Some(0) }
    }

    /// A body over the bytes that were read, with the declared length if any.
    pub fn from_reader(bytes: Vec<u8>, content_length: Option<usize>) -> (r: Body)
        ensures
            r.bytes@ == bytes@,
            r.length == content_length,
            is_byte_stream(r.mime),
    {
        Body { bytes, mime: Mime::byte_stream(), length: content_length }
    }

    /// A body holding the UTF-8 bytes of `s`.
    pub fn from_string(s: &str) -> (r: Body)
        ensures
            body_content(r) == encode_utf8(s@),
            r.length == Some(encode_utf8(s@).len() as usize),
            is_byte_stream(r.mime),
    {
        let bytes = vstd::slice::slice_to_vec(s.as_bytes());
        let n = bytes.len();
        Body { bytes, mime: Mime::byte_stream(), length: Some(n) }
    }

    /// The body's bytes.
    pub fn into_bytes(self) -> (r: Vec<u8>)
        ensures
            r@ == body_content(self),
    {
        let mut bytes = self.bytes;
        if let Some(n) = self.length {
            if n < bytes.len() {
                bytes.truncate(n);
            }
        }
        bytes
    }

    /// The body as text, or `None` if it is not valid UTF-8.
    pub fn into_string(self) -> (r: Option<String>)
        ensures
            match r {
                Some(s) => utf8_decode(body_content(self)) == Some(s@),
                None => utf8_decode(body_content(self)) is None,
            },
    {
        string_from_utf8(self.into_bytes())
    }
}

/// An HTTP response. Header names are distinct.
#[derive(Debug)]
pub struct Response {
    pub headers: Vec<(String, String)>,
    pub body: Body,
    pub status: u16,
    pub reason: String,
}

impl Response {
    /// Puts in `body`, sets `Content-Type` to its MIME type, and returns the old body.
    pub fn replace_body(&mut self, body: Body) -> (r: Body)
        ensures
            r == old(self).body,
            final(self).body == body,
            attrs_view(final(self).headers@) == attr_set(
                attrs_view(old(self).headers@),
                "Content-Type"@,
                mime_text(body.mime),
            ),
            final(self).status == old(self).status,
            final(self).reason == old(self).reason,
    {
        let mut body = body;
        std::mem::swap(&mut self.body, &mut body);
        let content_type = self.body.mime.to_string();
        set_pair(&mut self.headers, "Content-Type".to_owned(), content_type);
        body
    }

    /// Takes the body out, leaving an empty one.
    pub fn take_body(&mut self) -> (r: Body)
        ensures
            r == old(self).body,
            body_content(final(self).body).len() == 0,
            final(self).body.length == Some(0usize),
            is_byte_stream(final(self).body.mime),
            final(self).status == old(self).status,
            final(self).reason == old(self).reason,
            attrs_view(final(self).headers@) == attr_set(
                attrs_view(old(self).headers@),
                "Content-Type"@,
                mime_text(final(self).body.mime),
            ),
    {
        self.replace_body(Body::empty())
    }

    /// A builder for a response.
    pub fn build() -> (r: ResponseBuilder)
        ensures
            r.headers@.len() == 0,
            r.body.is_none(),
            r.status.is_none(),
            r.reason.is_none(),
            r.method.is_none(),
    {
        ResponseBuilder::new()
    }

    /// The headers, as name and value pairs.
    pub fn headers(&self) -> (r: &Vec<(String, String)>)
        ensures
            r == &self.headers,
    {
        &self.headers
    }

    /// The status code.
    pub fn status(&self) -> (r: u16)
        ensures
            r == self.status,
    {
        self.status
    }

    /// The reason phrase.
    pub fn reason(&self) -> (r: &str)
        ensures
            r@ == self.reason@,
    {
        self.reason.as_str()
    }
}

/// Builds a `Response`; what is not set takes its default (an empty body, status 200, an
/// empty reason).
#[derive(Debug)]
pub struct ResponseBuilder {
    pub headers: Vec<(String, String)>,
    pub body: Option<Body>,
    pub status: Option<u16>,
    pub reason: Option<String>,
    pub method: Option<Method>,
}

/// The headers after inserting each pair in order, later values replacing earlier ones.
pub open spec fn headers_after(h: Seq<(Seq<char>, Seq<char>)>, new: Seq<(Seq<char>, Seq<char>)>) -> Seq<
    (Seq<char>, Seq<char>),
>
    decreases new.len(),
{
    if new.len() == 0 {
        h
    } else {
        attr_set(headers_after(h, new.drop_last()), new.last().0, new.last().1)
    }
}

impl ResponseBuilder {
    /// A builder with nothing set.
    pub fn new() -> (r: ResponseBuilder)
        ensures
            r.headers@.len() == 0,
            r.body.is_none(),
            r.status.is_none(),
            r.reason.is_none(),
            r.method.is_none(),
    {
        ResponseBuilder { headers: Vec::new(), body: None, status: None, reason: None, method: None }
    }

    /// Sets a header, replacing an earlier value under the same name.
    pub fn header(self, key: &str, value: &str) -> (r: ResponseBuilder)
        ensures
            attrs_view(r.headers@) == attr_set(attrs_view(self.headers@), key@, value@),
            r.body == self.body,
            r.status == self.status,
            r.reason == self.reason,
    {
        let mut b = self;
        set_pair(&mut b.headers, key.to_owned(), value.to_owned());
        b
    }

    /// Sets each header in order.
    pub fn headers(self, new_headers: Vec<(String, String)>) -> (r: ResponseBuilder)
        ensures
            attrs_view(r.headers@) == headers_after(attrs_view(self.headers@), attrs_view(new_headers@)),
            r.body == self.body,
            r.status == self.status,
            r.reason == self.reason,
    {
        let mut b = self;
        let ghost start = attrs_view(b.headers@);
        let ghost nv = attrs_view(new_headers@);
        let mut i: usize = 0;
        while i < new_headers.len()
            invariant
                0 <= i <= new_headers@.len(),
                nv == attrs_view(new_headers@),
                attrs_view(b.headers@) == headers_after(start, nv.take(i as int)),
                b.body == self.body,
                b.status == self.status,
                b.reason == self.reason,
            decreases new_headers@.len() - i,
        {
            proof {
                assert(nv.take(i + 1).drop_last() =~= nv.take(i as int));
            }
            set_pair(&mut b.headers, new_headers[i].0.clone(), new_headers[i].1.clone());
            i += 1;
        }
        proof {
            assert(nv.take(i as int) =~= nv);
        }
        b
    }

    /// Sets the body.
    pub fn body(self, body: Body) -> (r: ResponseBuilder)
        ensures
            r.body == Some(body),
            r.headers == self.headers,
            r.status == self.status,
            r.reason == self.reason,
    {
        let mut b = self;
        b.body = Some(body);
        b
    }

    /// Sets the status code and reason phrase.
    pub fn status(self, code: u16, reason: &str) -> (r: ResponseBuilder)
        ensures
            r.status == Some(code),
            r.reason matches Some(s) && s@ == reason@,
            r.headers == self.headers,
            r.body == self.body,
    {
        let mut b = self;
        b.status = Some(code);
        b.reason = Some(reason.to_owned());
        b
    }

    /// The response, with defaults for what was not set.
    pub fn build(self) -> (r: Response)
        ensures
            r.headers == self.headers,
            match self.body {
                Some(body) => r.body == body,
                None => body_content(r.body).len() == 0 && r.body.length == Some(0usize)
                    && is_byte_stream(r.body.mime),
            },
            r.status == match self.status {
                Some(s) => s,
                None => 200u16,
            },
            r.reason@ == match self.reason {
                Some(s) => s@,
                None => Seq::<char>::empty(),
            },
    {
        let body = match self.body {
            Some(b) => b,
            None => Body::empty(),
        };
        let status = match self.status {
            Some(s) => s,
            None => 200,
        };
        let reason = match self.reason {
            Some(s) => s,
            None => String::new(),
        };
        Response { headers: self.headers, body, status, reason }
    }
}

/// The response to a malformed request: 400, with a short HTML page.
pub fn err_400() -> (r: Response)
    ensures
        attrs_view(r.headers@) == seq![("Content-Type"@, "text/html"@ + ";charset=utf-8"@)],
        body_content(r.body) == encode_utf8("<h1>400: bad request</h1>"@),
        r.status == 400,
        r.reason@ == "bad request"@,
{
    let mut headers: Vec<(String, String)> = Vec::new();
    let html = Mime::html();
    let content_type = html.to_string();
    proof {
        assert(crate::mime::params_view(html.params@) =~= Seq::empty());
        assert(content_type@ =~= "text/html"@ + ";charset=utf-8"@);
    }
    headers.push(("Content-Type".to_owned(), content_type));
    proof {
        assert(attrs_view(headers@) =~= seq![("Content-Type"@, "text/html"@ + ";charset=utf-8"@)]);
    }
    Response {
        headers,
        body: Body::from_string("<h1>400: bad request</h1>"),
        status: 400,
        reason: "bad request".to_owned(),
    }
}

} // verus!
