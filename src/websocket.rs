//! The per-connection state machine: it answers pings, echoes a close once, and then refuses.
//! It decides what to send; the caller owns the stream and does the sending.

use vstd::prelude::*;
use crate::frame::{Frame, FrameV, OpCode};
use crate::message::{bytes_or_empty, DecodeMessageError, Message, MessageV};

verus! {

/// The state of a WebSocket connection.
#[derive(Debug, Clone, Copy, PartialEq, Eq, Structural)]
pub enum WebSocketState {
    Open,
    Closed,
}

/// Why no message is handed to the application.
#[derive(Debug, Clone, Copy, PartialEq, Eq, Structural)]
pub enum NextMessageError {
    /// The client sent something invalid; the caller tears the connection down.
    ClientError,
    /// The connection is closed.
    ConnectionClosed,
}

/// Why a frame could not be sent.
#[derive(Debug, Clone, Copy, PartialEq, Eq, Structural)]
pub enum SendFrameError {
    /// The frame could not be encoded.
    EncodeFrameError,
    /// Writing to the stream failed.
    IoError,
}

/// A WebSocket connection's state.
#[derive(Debug)]
pub struct WebSocket {
    state: WebSocketState,
}

/// What to do after a message was decoded: the frames to write, in order, and then what the
/// application receives.
#[derive(Debug)]
pub struct Step {
    pub send: Vec<Frame>,
    pub result: Result<Message, NextMessageError>,
}

/// The close frame: final, empty.
pub open spec fn close_frame() -> FrameV {
    FrameV {
        fin: true,
        rsv1: false,
        rsv2: false,
        rsv3: false,
        op_code: OpCode::Terminate,
        payload: Seq::empty(),
    }
}

/// The pong that answers a ping with payload `p`.
pub open spec fn pong_frame(p: Option<Seq<u8>>) -> FrameV {
    FrameV {
        fin: true,
        rsv1: false,
        rsv2: false,
        rsv3: false,
        op_code: OpCode::Pong,
        payload: bytes_or_empty(p),
    }
}

fn close_frame_exec() -> (r: Frame)
    ensures
        r@ == close_frame(),
{
    Frame {
        fin: true,
        rsv1: false,
        rsv2: false,
        rsv3: false,
        op_code: OpCode::Terminate,
        decoded: Vec::new(),
    }
}

impl WebSocket {
    pub closed spec fn spec_state(&self) -> WebSocketState {
        self.state
    }

    /// A connection that has just been opened.
    pub fn new() -> (r: WebSocket)
        ensures
            r.spec_state() == WebSocketState::Open,
    {
        WebSocket { state: WebSocketState::Open }
    }

    /// The state of the connection.
    pub fn state(&self) -> (r: WebSocketState)
        ensures
            r == self.spec_state(),
    {
        self.state
    }

    /// Takes the outcome of decoding the next message and says what to send and what the
    /// application gets. On an open connection: a ping is answered by exactly one pong with
    /// the same payload, written before the ping is handed on; a close frame from the client
    /// is echoed once and closes the connection; a protocol violation, or a stream that ended
    /// inside a message (`NeedMoreData`), is a client error. A closed connection sends
    /// nothing and reports that it is closed.
    pub fn next(&mut self, decoded: Result<Message, DecodeMessageError>) -> (r: Step)
        ensures
            old(self).spec_state() == WebSocketState::Closed ==> {
                &&& final(self).spec_state() == WebSocketState::Closed
                &&& r.send@.len() == 0
                &&& r.result == Err::<Message, NextMessageError>(NextMessageError::ConnectionClosed)
            },
            old(self).spec_state() == WebSocketState::Open ==> match decoded {
                Ok(m) => {
                    &&& final(self).spec_state() == WebSocketState::Open
                    &&& r.result matches Ok(rm) && rm@ == m@
                    &&& match m@ {
                        MessageV::Ping(p) => r.send@.len() == 1 && r.send@[0]@ == pong_frame(p),
                        _ => r.send@.len() == 0,
                    }
                },
                Err(DecodeMessageError::ClientSentCloseFrame) => {
                    &&& final(self).spec_state() == WebSocketState::Closed
                    &&& r.send@.len() == 1
                    &&& r.send@[0]@ == close_frame()
                    &&& r.result == Err::<Message, NextMessageError>(
                        NextMessageError::ConnectionClosed,
                    )
                },
                Err(_) => {
                    &&& final(self).spec_state() == WebSocketState::Open
                    &&& r.send@.len() == 0
                    &&& r.result == Err::<Message, NextMessageError>(NextMessageError::ClientError)
                },
            },
    {
        let mut send: Vec<Frame> = Vec::new();
        match self.state {
            WebSocketState::Closed => Step { send, result: Err(NextMessageError::ConnectionClosed) },
            WebSocketState::Open => match decoded {
                Ok(msg) => {
                    if let Message::Ping(payload) = &msg {
                        let decoded = match payload {
                            Some(p) => p.clone(),
                            None => Vec::new(),
                        };
                        send.push(
                            Frame {
                                fin: true,
                                rsv1: false,
                                rsv2: false,
                                rsv3: false,
                                op_code: OpCode::Pong,
                                decoded,
                            },
                        );
                    }
                    Step { send, result: Ok(msg) }
                },
                Err(DecodeMessageError::ClientSentCloseFrame) => {
                    self.state = WebSocketState::Closed;
                    send.push(close_frame_exec());
                    Step { send, result: Err(NextMessageError::ConnectionClosed) }
                },
                Err(_) => Step { send, result: Err(NextMessageError::ClientError) },
            },
        }
    }

    /// Closes the connection from this side: the close frame to send if it was open, and
    /// nothing if it was closed already, so that a close is sent at most once.
    pub fn close(&mut self) -> (r: Option<Frame>)
        ensures
            final(self).spec_state() == WebSocketState::Closed,
            old(self).spec_state() == WebSocketState::Open ==> (r matches Some(f) && f@
                == close_frame()),
            old(self).spec_state() == WebSocketState::Closed ==> r.is_none(),
    {
        match self.state {
            WebSocketState::Open => {
                self.state = WebSocketState::Closed;
                Some(close_frame_exec())
            },
            WebSocketState::Closed => None,
        }
    }

    /// The frame that sends `message`, or `None` on a closed connection.
    pub fn send(&self, message: Message) -> (r: Option<Frame>)
        ensures
            self.spec_state() == WebSocketState::Open ==> (r matches Some(f) && f@
                == crate::message::message_frame(message@)),
            self.spec_state() == WebSocketState::Closed ==> r.is_none(),
    {
        match self.state {
            WebSocketState::Open => Some(Frame::from_message(message)),
            WebSocketState::Closed => None,
        }
    }
}

} // verus!
