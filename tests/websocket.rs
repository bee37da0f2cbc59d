use puck::frame::{Frame, OpCode, ParseFrameError};
use puck::message::{DecodeMessageError, Message};
use puck::upgrade::{compute_accept_header, should_upgrade};
use puck::websocket::{NextMessageError, WebSocket, WebSocketState};

fn frame(fin: bool, op_code: OpCode, payload: Vec<u8>) -> Frame {
    Frame {
        fin,
        rsv1: false,
        rsv2: false,
        rsv3: false,
        op_code,
        decoded: payload,
    }
}

fn same(a: &Frame, b: &Frame) -> bool {
    a.fin == b.fin
        && a.rsv1 == b.rsv1
        && a.rsv2 == b.rsv2
        && a.rsv3 == b.rsv3
        && a.op_code == b.op_code
        && a.decoded == b.decoded
}

const KEY: [u8; 4] = [0x37, 0xfa, 0x21, 0x3d];

#[test]
fn test() {
    let (f, n) = Frame::parse(&[137, 0]).unwrap();
    assert!(same(&f, &frame(true, OpCode::Ping, vec![])));
    assert_eq!(n, 2);
    let (f, n) = Frame::parse(&[138, 0]).unwrap();
    assert!(same(&f, &frame(true, OpCode::Pong, vec![])));
    assert_eq!(n, 2);
}

#[test]
fn test_compute_upgrade_header() {
    assert_eq!(
        compute_accept_header("dGhlIHNhbXBsZSBub25jZQ=="),
        "s3pPLMBiTxaQ9kYGzzhZRbK+xOo=".to_string()
    );
}

#[test]
fn masked_frames_round_trip() {
    for len in [0usize, 1, 5, 125, 126, 127, 1000, 65534, 65535, 70000] {
        let payload: Vec<u8> = (0..len).map(|i| (i * 7 % 251) as u8).collect();
        let mut f = frame(true, OpCode::Binary, payload);
        f.rsv2 = true;
        let bytes = f.format_masked(KEY);
        let (g, n) = Frame::parse(&bytes).unwrap();
        assert!(same(&f, &g));
        assert_eq!(n, bytes.len());
    }
}

#[test]
fn unmasked_empty_frames_round_trip() {
    for op in [OpCode::Continue, OpCode::Text, OpCode::Binary, OpCode::Terminate, OpCode::Ping, OpCode::Pong] {
        let f = frame(false, op, vec![]);
        let bytes = f.format();
        assert_eq!(bytes.len(), 2);
        let (g, n) = Frame::parse(&bytes).unwrap();
        assert!(same(&f, &g));
        assert_eq!(n, 2);
    }
}

#[test]
fn server_frame_layout() {
    let f = frame(true, OpCode::Text, b"hi".to_vec());
    assert_eq!(f.format(), vec![0x81, 2, b'h', b'i']);
    let big = frame(true, OpCode::Binary, vec![0; 300]);
    let bytes = big.format();
    assert_eq!(&bytes[..4], &[0x82, 126, 1, 44]);
    assert_eq!(bytes.len(), 304);
    let huge = frame(true, OpCode::Binary, vec![0; 65535]);
    let bytes = huge.format();
    assert_eq!(&bytes[..10], &[0x82, 127, 0, 0, 0, 0, 0, 0, 255, 255]);
    assert_eq!(Frame::format_length(125), 125);
    assert_eq!(Frame::format_length(126), 126);
    assert_eq!(Frame::format_length(65535), 127);
}

#[test]
fn frame_errors() {
    assert_eq!(Frame::parse(&[0x81]).unwrap_err(), ParseFrameError::InsufficientData);
    assert_eq!(Frame::parse(&[0x83, 0]).unwrap_err(), ParseFrameError::InvalidOpCode);
    assert_eq!(Frame::parse(&[0x8b, 0]).unwrap_err(), ParseFrameError::InvalidOpCode);
    assert_eq!(Frame::parse(&[0x81, 3, 1, 2, 3]).unwrap_err(), ParseFrameError::MaskNotSet);
    assert_eq!(Frame::parse(&[0x81, 0x83, 1, 2]).unwrap_err(), ParseFrameError::InsufficientData);
    assert_eq!(Frame::parse(&[0x81, 126, 1]).unwrap_err(), ParseFrameError::IoError);
    assert_eq!(Frame::parse(&[0x81, 0x85, 0, 0, 0, 0, 1, 2]).unwrap_err(), ParseFrameError::IoError);
    assert_eq!(
        Frame::parse(&[0x01, 0x85, 0, 0, 0, 0, 1, 2]).unwrap_err(),
        ParseFrameError::WaitForNextFrame(3)
    );
}

#[test]
fn unmasking_uses_the_key() {
    // "Hello" masked with 37 fa 21 3d, the example of RFC 6455
    let bytes = [0x81, 0x85, 0x37, 0xfa, 0x21, 0x3d, 0x7f, 0x9f, 0x4d, 0x51, 0x58];
    let (f, n) = Frame::parse(&bytes).unwrap();
    assert_eq!(f.decoded, b"Hello".to_vec());
    assert_eq!(n, 11);
    assert!(f.fin());
    assert_eq!(f.op_code(), OpCode::Text);
    assert_eq!(f.take_decoded(), b"Hello".to_vec());
}

fn masked(fin: bool, op: OpCode, payload: &[u8]) -> Vec<u8> {
    frame(fin, op, payload.to_vec()).format_masked(KEY)
}

#[test]
fn messages_from_single_frames() {
    let bytes = masked(true, OpCode::Text, "héllo".as_bytes());
    match Message::next(&bytes).unwrap() {
        (Message::Text(t), n) => {
            assert_eq!(t, "héllo");
            assert_eq!(n, bytes.len());
        }
        _ => panic!("expected text"),
    }
    let bytes = masked(true, OpCode::Ping, b"");
    assert!(matches!(Message::next(&bytes).unwrap(), (Message::Ping(None), 6)));
    let bytes = masked(true, OpCode::Pong, b"p");
    assert!(matches!(Message::next(&bytes).unwrap(), (Message::Pong(Some(p)), 7) if p == b"p".to_vec()));
    let bytes = masked(true, OpCode::Binary, &[1, 2]);
    assert!(matches!(Message::next(&bytes).unwrap(), (Message::Binary(b), 8) if b == vec![1, 2]));
}

#[test]
fn messages_from_continuations() {
    let mut bytes = masked(false, OpCode::Text, b"hel");
    bytes.extend(masked(false, OpCode::Continue, b"l"));
    bytes.extend(masked(true, OpCode::Continue, b"o"));
    let total = bytes.len();
    bytes.extend(masked(true, OpCode::Ping, b"next"));
    match Message::next(&bytes).unwrap() {
        (Message::Text(t), n) => {
            assert_eq!(t, "hello");
            assert_eq!(n, total);
        }
        _ => panic!("expected text"),
    }
}

#[test]
fn message_errors() {
    let close = masked(true, OpCode::Terminate, b"");
    assert_eq!(Message::next(&close).unwrap_err(), DecodeMessageError::ClientSentCloseFrame);

    let mut mid_close = masked(false, OpCode::Binary, b"a");
    mid_close.extend(masked(true, OpCode::Terminate, b""));
    assert_eq!(Message::next(&mid_close).unwrap_err(), DecodeMessageError::ClientSentCloseFrame);

    let mut bad_cont = masked(false, OpCode::Binary, b"a");
    bad_cont.extend(masked(true, OpCode::Text, b"b"));
    assert_eq!(Message::next(&bad_cont).unwrap_err(), DecodeMessageError::ClientProtocolViolationError);

    let bad_utf8 = masked(true, OpCode::Text, &[0xff, 0xfe]);
    assert_eq!(Message::next(&bad_utf8).unwrap_err(), DecodeMessageError::ClientProtocolViolationError);

    let fragmented_ping = masked(false, OpCode::Ping, b"a");
    assert_eq!(Message::next(&fragmented_ping).unwrap_err(), DecodeMessageError::ClientProtocolViolationError);

    let unmasked = frame(true, OpCode::Text, b"a".to_vec()).format();
    assert_eq!(Message::next(&unmasked).unwrap_err(), DecodeMessageError::ClientProtocolViolationError);

    let open_ended = masked(false, OpCode::Text, b"a");
    assert_eq!(Message::next(&open_ended).unwrap_err(), DecodeMessageError::NeedMoreData);
    assert_eq!(Message::next(&[]).unwrap_err(), DecodeMessageError::NeedMoreData);
}

#[test]
fn ping_is_answered_by_one_pong_first() {
    let mut ws = WebSocket::new();
    let step = ws.next(Ok(Message::Ping(Some(b"payload".to_vec()))));
    assert_eq!(step.send.len(), 1);
    assert!(same(&step.send[0], &frame(true, OpCode::Pong, b"payload".to_vec())));
    assert!(matches!(step.result, Ok(Message::Ping(Some(p))) if p == b"payload".to_vec()));
    assert_eq!(ws.state(), WebSocketState::Open);

    let step = ws.next(Ok(Message::Ping(None)));
    assert_eq!(step.send.len(), 1);
    assert!(same(&step.send[0], &frame(true, OpCode::Pong, vec![])));

    let step = ws.next(Ok(Message::Text("x".to_string())));
    assert!(step.send.is_empty());
}

#[test]
fn close_is_echoed_once() {
    let mut ws = WebSocket::new();
    let step = ws.next(Err(DecodeMessageError::ClientSentCloseFrame));
    assert_eq!(step.send.len(), 1);
    assert!(same(&step.send[0], &frame(true, OpCode::Terminate, vec![])));
    assert!(matches!(step.result, Err(NextMessageError::ConnectionClosed)));
    assert_eq!(ws.state(), WebSocketState::Closed);
    assert!(ws.close().is_none());
    let step = ws.next(Ok(Message::Ping(None)));
    assert!(step.send.is_empty());
    assert!(matches!(step.result, Err(NextMessageError::ConnectionClosed)));
    assert!(ws.send(Message::Text("late".to_string())).is_none());
}

#[test]
fn local_close_and_send() {
    let mut ws = WebSocket::new();
    let f = ws.send(Message::Text("hé".to_string())).unwrap();
    assert!(same(&f, &frame(true, OpCode::Text, "hé".as_bytes().to_vec())));
    let step = ws.next(Err(DecodeMessageError::ClientProtocolViolationError));
    assert!(step.send.is_empty());
    assert!(matches!(step.result, Err(NextMessageError::ClientError)));
    let close = ws.close().unwrap();
    assert!(same(&close, &frame(true, OpCode::Terminate, vec![])));
    assert!(ws.close().is_none());
}

#[test]
fn from_message_frames() {
    let f = Frame::from_message(Message::Pong(Some(vec![9])));
    assert!(same(&f, &frame(true, OpCode::Pong, vec![9])));
    let f = Frame::from_message(Message::Binary(vec![1, 2, 3]));
    assert!(same(&f, &frame(true, OpCode::Binary, vec![1, 2, 3])));
}

#[test]
fn upgrade_detection() {
    assert!(should_upgrade(Some("WebSocket"), Some("keep-alive, Upgrade")));
    assert!(should_upgrade(Some("websocket"), Some("upgrade")));
    assert!(!should_upgrade(Some("websockets"), Some("upgrade")));
    assert!(!should_upgrade(None, Some("upgrade")));
    assert!(!should_upgrade(Some("websocket"), Some("keep-alive")));
    assert!(!should_upgrade(Some("websocket"), None));
}
