//! Messages of the signaling service that lists streams and announces viewers.
use vstd::prelude::*;

verus! {

/// Identifier of a stream at the signaling server.
pub type StreamId = String;

/// A signaling notification: a viewer wants to join a stream at a destination URL.
#[derive(Clone, Debug, PartialEq, Eq)]
pub struct NewViewer {
    pub stream_id: StreamId,
    pub destination: String,
}

} // verus!
