//! Content topic helpers: the discovery topic, per-recipient task topics and
//! per-message ack topics.

use vstd::prelude::*;

verus! {

use vstd::string::StringExecFns;

pub open spec fn discovery_topic_view() -> Seq<char> {
    "/waku-a2a/1/discovery/proto"@
}

pub open spec fn task_topic_view(recipient_pubkey: Seq<char>) -> Seq<char> {
    "/waku-a2a/1/task/"@ + recipient_pubkey + "/proto"@
}

pub open spec fn ack_topic_view(message_id: Seq<char>) -> Seq<char> {
    "/waku-a2a/1/ack/"@ + message_id + "/proto"@
}

/// The topic on which agent cards are announced.
pub fn discovery_topic() -> (r: String)
    ensures
        r@ == discovery_topic_view(),
{
    "/waku-a2a/1/discovery/proto".to_owned()
}

/// The topic on which tasks addressed to `recipient_pubkey` travel.
pub fn task_topic(recipient_pubkey: &str) -> (r: String)
    ensures
        r@ == task_topic_view(recipient_pubkey@),
{
    let mut s = "/waku-a2a/1/task/".to_owned();
    s.append(recipient_pubkey);
    s.append("/proto");
    s
}

/// The ephemeral topic on which the ack for one message id travels.
pub fn ack_topic(message_id: &str) -> (r: String)
    ensures
        r@ == ack_topic_view(message_id@),
{
    let mut s = "/waku-a2a/1/ack/".to_owned();
    s.append(message_id);
    s.append("/proto");
    s
}

} // verus!
