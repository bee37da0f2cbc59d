use puck::http::{err_400, Body, Method, Response};
use puck::mime::{is_http_token_code_point, Mime, ParamName, ParamValue};
use puck::router::{any_integer, anything, parses_as_i32, path, Match};

#[test]
fn test_simple() {
    let matcher = Match::new()
        .at(path("home"))
        .at(path("name"))
        .at(anything())
        .at(path("page"))
        .at(any_integer());
    let ok: Vec<String> = ["home", "name", "someone", "page", "12"].iter().map(|s| s.to_string()).collect();
    let bad: Vec<String> = ["home", "name", "someone", "page", "twelve"].iter().map(|s| s.to_string()).collect();
    assert!(matcher.does_match(Some(&ok)));
    assert!(!matcher.does_match(Some(&bad)));
    assert!(!matcher.does_match(None));
    assert!(!matcher.does_match(Some(&ok[..4].to_vec())));
}

#[test]
fn i32_texts() {
    for s in ["0", "12", "+7", "-0", "2147483647", "-2147483648", "007"] {
        assert!(parses_as_i32(s), "{}", s);
        assert!(s.parse::<i32>().is_ok());
    }
    for s in ["", "+", "-", "2147483648", "-2147483649", "1a", " 1", "99999999999999999999"] {
        assert!(!parses_as_i32(s), "{}", s);
        assert!(s.parse::<i32>().is_err());
    }
}

#[test]
fn mime_serialization() {
    assert_eq!(Mime::html().to_string(), "text/html;charset=utf-8");
    assert_eq!(Mime::byte_stream().to_string(), "application/octet-stream");
    let mut m = Mime::plain();
    m.params.push((ParamName("a".to_string()), ParamValue("tok-en".to_string())));
    m.params.push((ParamName("b".to_string()), ParamValue("say \"hi\"\\".to_string())));
    m.params.push((ParamName("c".to_string()), ParamValue(String::new())));
    assert_eq!(
        m.to_string(),
        "text/plain;charset=utf-8;a=tok-en;b=\"say \\\"hi\\\"\\\\\";c=\"\""
    );
    assert!(is_http_token_code_point('~'));
    assert!(!is_http_token_code_point(' '));
    assert!(!is_http_token_code_point('"'));
}

#[test]
fn methods() {
    assert!(matches!(Method::new_from_str("GeT"), Method::Get));
    assert!(matches!(Method::new_from_str("POST"), Method::Post));
    assert!(matches!(Method::new_from_str("put"), Method::OtherMethod(m) if m == "put"));
    let mut out = String::new();
    Method::Post.write(&mut out);
    Method::Head.write(&mut out);
    assert_eq!(out, "POSTHEAD /");
}

#[test]
fn bodies() {
    let b = Body::from_reader(b"abcdef".to_vec(), Some(3));
    assert_eq!(b.into_bytes(), b"abc".to_vec());
    let b = Body::from_reader(b"abc".to_vec(), None);
    assert_eq!(b.into_string(), Some("abc".to_string()));
    let b = Body::from_reader(vec![0xff], None);
    assert_eq!(b.into_string(), None);
    assert_eq!(Body::empty().into_bytes(), Vec::<u8>::new());
    assert_eq!(Body::from_string("hé").into_bytes(), "hé".as_bytes().to_vec());
}

#[test]
fn response_builder_and_bodies() {
    let mut res: Response = Response::build()
        .header("X-One", "1")
        .headers(vec![("X-Two".to_string(), "2".to_string()), ("X-One".to_string(), "3".to_string())])
        .status(404, "not found")
        .body(Body::from_string("gone"))
        .build();
    assert_eq!(res.status(), 404);
    assert_eq!(res.reason(), "not found");
    assert_eq!(
        res.headers(),
        &vec![("X-One".to_string(), "3".to_string()), ("X-Two".to_string(), "2".to_string())]
    );
    let old = res.take_body();
    assert_eq!(old.into_string(), Some("gone".to_string()));
    assert!(res
        .headers()
        .contains(&("Content-Type".to_string(), "application/octet-stream".to_string())));
    let mut html = Body::from_string("<p></p>");
    html.mime = Mime::html();
    let _ = res.replace_body(html);
    assert!(res
        .headers()
        .contains(&("Content-Type".to_string(), "text/html;charset=utf-8".to_string())));

    let default = Response::build().build();
    assert_eq!(default.status(), 200);
    assert_eq!(default.reason(), "");
}

#[test]
fn bad_request_response() {
    let res = err_400();
    assert_eq!(res.status(), 400);
    assert_eq!(res.reason(), "bad request");
    assert_eq!(
        res.headers(),
        &vec![("Content-Type".to_string(), "text/html;charset=utf-8".to_string())]
    );
    assert_eq!(res.body.into_string(), Some("<h1>400: bad request</h1>".to_string()));
}

#[test]
fn response_head_in_name_order() {
    let res = Response::build()
        .header("X-b", "2")
        .header("Content-Length", "0")
        .header("X-a", "1")
        .status(404, "not found")
        .build();
    assert_eq!(
        res.encode_head(),
        "HTTP/1.1 404 not found\r\nContent-Length: 0\r\nX-a: 1\r\nX-b: 2\r\n\r\n"
    );
    assert_eq!(err_400().encode_head(), "HTTP/1.1 400 bad request\r\nContent-Type: text/html;charset=utf-8\r\n\r\n");
}

#[test]
fn upgrade_responses() {
    let (res, ok) = puck::upgrade::upgrade_response(Some("dGhlIHNhbXBsZSBub25jZQ=="));
    assert!(ok);
    assert_eq!(res.status(), 101);
    assert_eq!(res.reason(), "Web Socket Protocol Handshake");
    assert!(res.headers().contains(&("Sec-WebSocket-Accept".to_string(), "s3pPLMBiTxaQ9kYGzzhZRbK+xOo=".to_string())));
    assert!(res.headers().contains(&("Upgrade".to_string(), "websocket".to_string())));
    let (res, ok) = puck::upgrade::upgrade_response(None);
    assert!(!ok);
    assert_eq!(res.status(), 400);
}

#[test]
fn take_body_keeps_status() {
    let mut res = Response::build().status(201, "created").body(Body::from_string("x")).build();
    let _ = res.take_body();
    assert_eq!(res.status(), 201);
    assert_eq!(res.reason(), "created");
    assert_eq!(res.body.length, Some(0));
}
