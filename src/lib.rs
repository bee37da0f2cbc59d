//! Server-rendered UI trees, the diff engine that turns one tree into an edit script for the
//! browser, and the WebSocket framing that carries those edits.

pub mod apply;
pub mod changeset;
pub mod client;
pub mod diff;
pub mod diff_laws;
pub mod diff_spec;
pub mod element;
pub mod encode;
pub mod frame;
pub mod http;
pub mod message;
pub mod mime;
pub mod render;
pub mod round_trip;
pub mod session;
pub mod router;
mod text;
pub mod upgrade;
pub mod websocket;
pub mod wire;
