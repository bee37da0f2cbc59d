//! What the browser sends back: a listener's name and, for input events, the new value.

use vstd::prelude::*;

verus! {

/// An event from the client: the listener that fired and its payload, if any.
#[derive(Debug, Clone)]
pub struct ClientMessage {
    pub listener: String,
    pub payload: Option<ClientMessagePayload>,
}

/// The value that an input event carries.
#[derive(Debug, Clone)]
pub struct ClientMessagePayload {
    pub value: String,
}

} // verus!
