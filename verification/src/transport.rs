//! The pub/sub substrate interface.  Delivery is best-effort: a publish may
//! be dropped silently and a poll may return duplicates, so the trait itself
//! promises nothing of delivery; the layers above are verified against what
//! actually comes back.

use vstd::prelude::*;

verus! {

use crate::A2AError;

/// A swappable pub/sub transport on named content topics.
pub trait WakuTransport {
    /// Publish an opaque payload on a content topic.
    fn publish(&mut self, topic: &str, payload: &str) -> Result<(), A2AError>;

    /// Open a subscription on a content topic; the returned handle is used
    /// to poll.  Implementations may replay earlier traffic to the new
    /// subscriber.
    fn subscribe(&mut self, topic: &str) -> Result<usize, A2AError>;

    /// Drain the payloads delivered on a subscription since the last poll.
    fn poll(&mut self, sub: usize) -> Result<Vec<String>, A2AError>;

    /// Drop all of a topic's subscriptions.
    fn unsubscribe(&mut self, topic: &str) -> Result<(), A2AError>;

    /// Give the substrate time to deliver: block for about this many
    /// milliseconds.  A networked transport sleeps; an in-process transport,
    /// where delivery is immediate, may return at once.
    fn wait(&mut self, ms: u64);
}

} // verus!
