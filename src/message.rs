//! WebSocket messages, reassembled from one or more frames.

use vstd::prelude::*;
use crate::frame::{parse_spec, Frame, FrameV, OpCode, ParseFrameError};
use vstd::utf8::{decode_utf8, encode_utf8, valid_utf8};

verus! {

/// A WebSocket message.
#[derive(Debug, Clone)]
pub enum Message {
    /// A ping, with its payload unless that is empty.
    Ping(Option<Vec<u8>>),
    /// A pong, with its payload unless that is empty.
    Pong(Option<Vec<u8>>),
    /// A text message.
    Text(String),
    /// A binary message.
    Binary(Vec<u8>),
}

pub enum MessageV {
    Ping(Option<Seq<u8>>),
    Pong(Option<Seq<u8>>),
    Text(Seq<char>),
    Binary(Seq<u8>),
}

pub open spec fn opt_bytes(o: Option<Vec<u8>>) -> Option<Seq<u8>> {
    match o {
        Some(v) => Some(v@),
        None => None,
    }
}

impl Message {
    pub open spec fn view(&self) -> MessageV {
        match self {
            Message::Ping(p) => MessageV::Ping(opt_bytes(*p)),
            Message::Pong(p) => MessageV::Pong(opt_bytes(*p)),
            Message::Text(s) => MessageV::Text(s@),
            Message::Binary(b) => MessageV::Binary(b@),
        }
    }
}

/// The single final frame that carries a message.
pub open spec fn message_frame(m: MessageV) -> FrameV {
    FrameV {
        fin: true,
        rsv1: false,
        rsv2: false,
        rsv3: false,
        op_code: match m {
            MessageV::Ping(_) => OpCode::Ping,
            MessageV::Pong(_) => OpCode::Pong,
            MessageV::Text(_) => OpCode::Text,
            MessageV::Binary(_) => OpCode::Binary,
        },
        payload: match m {
            MessageV::Text(s) => encode_utf8(s),
            MessageV::Binary(b) => b,
            MessageV::Ping(p) => bytes_or_empty(p),
            MessageV::Pong(p) => bytes_or_empty(p),
        },
    }
}

pub open spec fn bytes_or_empty(p: Option<Seq<u8>>) -> Seq<u8> {
    match p {
        Some(b) => b,
        None => Seq::empty(),
    }
}

fn payload_or_empty(p: Option<Vec<u8>>) -> (r: Vec<u8>)
    ensures
        r@ == bytes_or_empty(opt_bytes(p)),
{
    match p {
        Some(b) => b,
        None => Vec::new(),
    }
}

impl Frame {
    /// The single final frame that carries `msg`.
    pub fn from_message(msg: Message) -> (r: Frame)
        ensures
            r@ == message_frame(msg@),
    {
        let (op_code, decoded) = match msg {
            Message::Ping(p) => (OpCode::Ping, payload_or_empty(p)),
            Message::Pong(p) => (OpCode::Pong, payload_or_empty(p)),
            Message::Text(s) => (OpCode::Text, vstd::slice::slice_to_vec(s.as_str().as_bytes())),
            Message::Binary(b) => (OpCode::Binary, b),
        };
        Frame { fin: true, rsv1: false, rsv2: false, rsv3: false, op_code, decoded }
    }
}

/// Why no message could be taken from the bytes.
#[derive(Debug, Clone, Copy, PartialEq, Eq, Structural)]
pub enum DecodeMessageError {
    /// The client broke the protocol: a bad frame, a bad continuation or text that is not UTF-8.
    ClientProtocolViolationError,
    /// The client sent a close frame.
    ClientSentCloseFrame,
    /// The bytes end before the message does: read more and try again.
    NeedMoreData,
}

/// The characters that the bytes spell in UTF-8, if they are valid UTF-8.
pub open spec fn utf8_decode(b: Seq<u8>) -> Option<Seq<char>> {
    if valid_utf8(b) {
        Some(decode_utf8(b))
    } else {
        None
    }
}

/// Relies on `String::from_utf8`: it succeeds exactly on valid UTF-8, and the string then
/// holds the characters that the bytes encode.
#[verifier::external_body]
pub(crate) fn string_from_utf8(bytes: Vec<u8>) -> (r: Option<String>)
    ensures
        match r {
            Some(s) => utf8_decode(bytes@) == Some(s@),
            None => utf8_decode(bytes@).is_none(),
        },
{
    String::from_utf8(bytes).ok()
}

/// A payload, or `None` for an empty one.
pub open spec fn nonempty(p: Seq<u8>) -> Option<Seq<u8>> {
    if p.len() > 0 {
        Some(p)
    } else {
        None
    }
}

/// The message that a complete payload makes under the opcode of its first frame.
pub open spec fn finish_spec(op: OpCode, p: Seq<u8>) -> Result<MessageV, DecodeMessageError> {
    match op {
        OpCode::Binary => Ok(MessageV::Binary(p)),
        OpCode::Text => match utf8_decode(p) {
            Some(s) => Ok(MessageV::Text(s)),
            None => Err(DecodeMessageError::ClientProtocolViolationError),
        },
        OpCode::Ping => Ok(MessageV::Ping(nonempty(p))),
        OpCode::Pong => Ok(MessageV::Pong(nonempty(p))),
        _ => Err(DecodeMessageError::ClientProtocolViolationError),
    }
}

/// What a frame error means to the assembler: the bytes ran out, or the client erred.
pub open spec fn frame_error(e: ParseFrameError) -> DecodeMessageError {
    match e {
        ParseFrameError::MaskNotSet => DecodeMessageError::ClientProtocolViolationError,
        ParseFrameError::InvalidOpCode => DecodeMessageError::ClientProtocolViolationError,
        _ => DecodeMessageError::NeedMoreData,
    }
}

pub open spec fn with_len(
    r: Result<MessageV, DecodeMessageError>,
    n: nat,
) -> Result<(MessageV, nat), DecodeMessageError> {
    match r {
        Ok(m) => Ok((m, n)),
        Err(e) => Err(e),
    }
}

/// Reads continuation frames from `pos` on, after a first frame of kind `op`, with `acc`
/// gathered so far.
pub open spec fn continue_spec(b: Seq<u8>, pos: nat, op: OpCode, acc: Seq<u8>) -> Result<
    (MessageV, nat),
    DecodeMessageError,
>
    decreases b.len() - pos,
{
    if pos > b.len() {
        Err(DecodeMessageError::NeedMoreData)
    } else {
        match parse_spec(b.subrange(pos as int, b.len() as int)) {
            Err(e) => Err(frame_error(e)),
            Ok((f, n)) => if f.op_code == OpCode::Terminate {
                Err(DecodeMessageError::ClientSentCloseFrame)
            } else if f.op_code != OpCode::Continue {
                Err(DecodeMessageError::ClientProtocolViolationError)
            } else if f.fin {
                with_len(finish_spec(op, acc + f.payload), pos + n)
            } else if n > 0 {
                continue_spec(b, pos + n, op, acc + f.payload)
            } else {
                Err(DecodeMessageError::NeedMoreData)
            },
        }
    }
}

/// The message at the start of `b` and the number of bytes it takes, or why there is none.
pub open spec fn next_spec(b: Seq<u8>) -> Result<(MessageV, nat), DecodeMessageError> {
    match parse_spec(b) {
        Err(e) => Err(frame_error(e)),
        Ok((f, n)) => if f.op_code == OpCode::Terminate {
            Err(DecodeMessageError::ClientSentCloseFrame)
        } else if f.fin {
            with_len(finish_spec(f.op_code, f.payload), n)
        } else if f.op_code == OpCode::Text || f.op_code == OpCode::Binary {
            continue_spec(b, n, f.op_code, f.payload)
        } else {
            Err(DecodeMessageError::ClientProtocolViolationError)
        },
    }
}

proof fn lemma_parse_len(b: Seq<u8>)
    requires
        parse_spec(b) is Ok,
    ensures
        2 <= parse_spec(b)->Ok_0.1 <= b.len(),
{
}

fn nonempty_payload(p: Vec<u8>) -> (r: Option<Vec<u8>>)
    ensures
        opt_bytes(r) == nonempty(p@),
{
    if p.len() > 0 {
        Some(p)
    } else {
        None
    }
}

impl Message {
    fn finish(op: OpCode, payload: Vec<u8>) -> (r: Result<Message, DecodeMessageError>)
        ensures
            match r {
                Ok(m) => finish_spec(op, payload@) == Ok::<MessageV, DecodeMessageError>(m@),
                Err(e) => finish_spec(op, payload@) == Err::<MessageV, DecodeMessageError>(e),
            },
    {
        match op {
            OpCode::Binary => Ok(Message::Binary(payload)),
            OpCode::Text => match string_from_utf8(payload) {
                Some(s) => Ok(Message::Text(s)),
                None => Err(DecodeMessageError::ClientProtocolViolationError),
            },
            OpCode::Ping => Ok(Message::Ping(nonempty_payload(payload))),
            OpCode::Pong => Ok(Message::Pong(nonempty_payload(payload))),
            _ => Err(DecodeMessageError::ClientProtocolViolationError),
        }
    }

    /// Takes the next message from the start of `bytes`: the message and how many bytes it
    /// took. A close frame, first or among the continuations, gives `ClientSentCloseFrame`.
    pub fn next(bytes: &[u8]) -> (r: Result<(Message, usize), DecodeMessageError>)
        ensures
            match r {
                Ok((m, n)) => next_spec(bytes@) == Ok::<(MessageV, nat), DecodeMessageError>(
                    (m@, n as nat),
                ),
                Err(e) => next_spec(bytes@) == Err::<(MessageV, nat), DecodeMessageError>(e),
            },
    {
        let (first, n) = match Frame::parse(bytes) {
            Ok(p) => p,
            Err(e) => return Err(Self::frame_error(e)),
        };
        proof {
            lemma_parse_len(bytes@);
        }
        if first.op_code == OpCode::Terminate {
            return Err(DecodeMessageError::ClientSentCloseFrame);
        }
        if first.fin {
            return match Self::finish(first.op_code, first.decoded) {
                Ok(m) => Ok((m, n)),
                Err(e) => Err(e),
            };
        }
        let op_code = first.op_code;
        if !(op_code == OpCode::Text || op_code == OpCode::Binary) {
            return Err(DecodeMessageError::ClientProtocolViolationError);
        }
        let mut payload = first.decoded;
        let mut pos: usize = n;
        while pos <= bytes.len()
            invariant
                2 <= pos <= bytes@.len() + 1,
                bytes@.len() == bytes.len(),
                next_spec(bytes@) == continue_spec(bytes@, pos as nat, op_code, payload@),
            decreases bytes@.len() + 1 - pos,
        {
            let rest = vstd::slice::slice_subrange(bytes, pos, bytes.len());
            let (frame, m) = match Frame::parse(rest) {
                Ok(p) => p,
                Err(e) => return Err(Self::frame_error(e)),
            };
            proof {
                lemma_parse_len(rest@);
            }
            if frame.op_code == OpCode::Terminate {
                return Err(DecodeMessageError::ClientSentCloseFrame);
            }
            if frame.op_code != OpCode::Continue {
                return Err(DecodeMessageError::ClientProtocolViolationError);
            }
            let fin = frame.fin;
            let mut more = frame.decoded;
            payload.append(&mut more);
            if fin {
                return match Self::finish(op_code, payload) {
                    Ok(msg) => Ok((msg, pos + m)),
                    Err(e) => Err(e),
                };
            }
            pos = pos + m;
        }
        Err(DecodeMessageError::NeedMoreData)
    }

    fn frame_error(e: ParseFrameError) -> (r: DecodeMessageError)
        ensures
            r == frame_error(e),
    {
        match e {
            ParseFrameError::MaskNotSet => DecodeMessageError::ClientProtocolViolationError,
            ParseFrameError::InvalidOpCode => DecodeMessageError::ClientProtocolViolationError,
            _ => DecodeMessageError::NeedMoreData,
        }
    }
}

} // verus!
