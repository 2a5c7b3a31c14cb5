//! Small messages exchanged over streams that are encrypted already. Bulk data
//! is not one of these messages: it is relayed as raw bytes.

use vstd::prelude::*;

verus! {

/// Sent on the persistent control connection.
#[derive(Debug, Clone)]
pub enum ControlMessage {
    /// Asks for a sign of life.
    Ping,
    /// Answers a `Ping`.
    Pong,
    /// Sent by the server when a reverse link needs a stream: the client cannot
    /// be dialed, so this asks it to dial a fresh data connection itself and to
    /// identify it with `stream_id`.
    OpenStream {
        /// The link that needs a stream.
        link_id: String,
        /// The number that the stream is known by.
        stream_id: u64,
    },
}

/// The first message on every freshly dialed data connection. Tells the server
/// which link the stream belongs to, and for a reverse link which waiting
/// connection to pair it with.
#[derive(Debug, Clone)]
pub struct StreamHello {
    /// The link that the stream belongs to.
    pub link_id: String,
    /// The waiting connection to pair the stream with.
    pub stream_id: Option<u64>,
}

} // verus!
