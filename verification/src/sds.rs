//! The reliability layer: acknowledgment-or-retransmit on send, an ack for
//! every received message, and deduplication of received batches by the
//! message id found at the JSON root.

use vstd::prelude::*;

verus! {

use crate::A2AError;
use crate::chars::{str_chars, str_eq};
use crate::codec::{decode_envelope, encode_envelope, parse_envelope};
use crate::json::{expect, parse_jstr};
use crate::model::{A2AEnvelope, A2AEnvelopeView};
use crate::topics::ack_topic;
use crate::transport::WakuTransport;

/// How many retransmits a reliable publish attempts after the first send.
pub const MAX_RETRIES: u32 = 3;

/// How long the sender waits for an acknowledgment after each attempt, in
/// milliseconds.
pub const ACK_TIMEOUT_MS: u64 = 10000;

/// How often the ack topic is polled while waiting, in milliseconds.
pub const POLL_INTERVAL_MS: u64 = 500;

// ---------------------------------------------------------------------------
// Root id extraction
// ---------------------------------------------------------------------------
/// Scan the leading string-valued members of a JSON object for an `"id"`
/// member, as used for deduplication.  Members past a non-string value are
/// not searched; every envelope this crate sends keeps `id`, when present,
/// among the leading string members.
pub open spec fn scan_id_members(s: Seq<char>, fuel: nat) -> Option<Seq<char>>
    decreases fuel,
{
    match parse_jstr(s) {
        Option::Some((key, s1)) => match expect(s1, ":"@) {
            Option::Some(s2) => match parse_jstr(s2) {
                Option::Some((val, s3)) => {
                    if key == "id"@ {
                        Option::Some(val)
                    } else if s3.len() > 0 && s3[0] == ',' && fuel > 0 {
                        scan_id_members(s3.skip(1), (fuel - 1) as nat)
                    } else {
                        Option::None
                    }
                },
                Option::None => Option::None,
            },
            Option::None => Option::None,
        },
        Option::None => Option::None,
    }
}

/// The message id at the root of a JSON payload, if one is found.
pub open spec fn extract_root_id(s: Seq<char>) -> Option<Seq<char>> {
    match expect(s, "{"@) {
        Option::Some(s1) => scan_id_members(s1, s1.len()),
        Option::None => Option::None,
    }
}

/// Exec mirror of `scan_id_members`.
fn find_id_members(v: &Vec<char>, pos: usize, fuel: usize) -> (r: Option<String>)
    requires
        pos <= v@.len(),
    ensures
        match r {
            Option::Some(id) => scan_id_members(v@.skip(pos as int), fuel as nat)
                == Option::Some(id@),
            Option::None => scan_id_members(v@.skip(pos as int), fuel as nat) is None,
        },
    decreases fuel,
{
    match crate::json::scan_jstr(v, pos) {
        None => None,
        Some((key, p1)) => match crate::json::scan_lit(v, p1, ":") {
            None => None,
            Some(p2) => match crate::json::scan_jstr(v, p2) {
                None => None,
                Some((val, p3)) => {
                    if str_eq(key.as_str(), "id") {
                        Some(val)
                    } else if p3 < v.len() && v[p3] == ',' && fuel > 0 {
                        proof {
                            assert(v@.skip(p3 as int)[0] == v@[p3 as int]);
                            assert(v@.skip(p3 as int).skip(1) =~= v@.skip(p3 as int + 1));
                        }
                        find_id_members(v, p3 + 1, fuel - 1)
                    } else {
                        proof {
                            if p3 < v@.len() {
                                assert(v@.skip(p3 as int)[0] == v@[p3 as int]);
                            } else {
                                assert(v@.skip(p3 as int).len() == 0);
                            }
                        }
                        None
                    }
                },
            },
        },
    }
}

/// The message id at the root of a payload, if one is found.
pub fn find_root_id(s: &str) -> (r: Option<String>)
    ensures
        match r {
            Option::Some(id) => extract_root_id(s@) == Option::Some(id@),
            Option::None => extract_root_id(s@) is None,
        },
{
    let v = str_chars(s);
    proof {
        assert(v@.skip(0) =~= s@);
    }
    match crate::json::scan_lit(&v, 0, "{") {
        None => None,
        Some(p1) => {
            proof {
                assert((v.len() - p1) as nat == v@.skip(p1 as int).len());
            }
            find_id_members(&v, p1, v.len() - p1)
        },
    }
}

// ---------------------------------------------------------------------------
// Deduplication
// ---------------------------------------------------------------------------
/// First-seen filtering: keep each message whose root id is absent or not
/// yet seen, recording ids as they appear; id-less messages pass through.
/// Returns the kept messages and the updated seen-id list.
pub open spec fn dedup_spec(seen: Seq<Seq<char>>, msgs: Seq<Seq<char>>) -> (
    Seq<Seq<char>>,
    Seq<Seq<char>>,
)
    decreases msgs.len(),
{
    if msgs.len() == 0 {
        (Seq::empty(), seen)
    } else {
        match extract_root_id(msgs[0]) {
            Option::None => {
                let rec = dedup_spec(seen, msgs.drop_first());
                (seq![msgs[0]] + rec.0, rec.1)
            },
            Option::Some(id) => {
                if seen.contains(id) {
                    dedup_spec(seen, msgs.drop_first())
                } else {
                    let rec = dedup_spec(seen.push(id), msgs.drop_first());
                    (seq![msgs[0]] + rec.0, rec.1)
                }
            },
        }
    }
}

/// Whether a seen-id list contains an id.
pub fn contains_id(ids: &Vec<String>, id: &str) -> (r: bool)
    ensures
        r == ids.deep_view().contains(id@),
{
    let n = ids.len();
    let mut i: usize = 0;
    while i < n
        invariant
            i <= n,
            n == ids@.len(),
            forall|j: int| 0 <= j < i ==> ids.deep_view()[j] != id@,
        decreases n - i,
    {
        if str_eq(ids[i].as_str(), id) {
            proof {
                assert(ids.deep_view()[i as int] == id@);
            }
            return true;
        }
        proof {
            assert(ids.deep_view()[i as int] == ids@[i as int]@);
        }
        i = i + 1;
    }
    proof {
        if ids.deep_view().contains(id@) {
            let j = choose|j: int| 0 <= j < ids.deep_view().len() && ids.deep_view()[j] == id@;
            assert(false);
        }
    }
    false
}

/// Filter a received batch down to its first-seen messages, recording new
/// ids in `seen`.
pub fn dedup_batch(seen: &mut Vec<String>, msgs: Vec<String>) -> (r: Vec<String>)
    ensures
        (r.deep_view(), final(seen).deep_view()) == dedup_spec(
            old(seen).deep_view(),
            msgs.deep_view(),
        ),
{
    let n = msgs.len();
    let mut kept: Vec<String> = Vec::new();
    let mut i: usize = 0;
    proof {
        assert(msgs.deep_view().skip(0) =~= msgs.deep_view());
        assert(kept.deep_view() =~= Seq::<Seq<char>>::empty());
        assert(kept.deep_view() + dedup_spec(seen.deep_view(), msgs.deep_view()).0 =~= dedup_spec(
            seen.deep_view(),
            msgs.deep_view(),
        ).0);
    }
    while i < n
        invariant
            i <= n,
            n == msgs@.len(),
            msgs.deep_view().len() == n,
            dedup_spec(old(seen).deep_view(), msgs.deep_view()).0 == kept.deep_view()
                + dedup_spec(seen.deep_view(), msgs.deep_view().skip(i as int)).0,
            dedup_spec(old(seen).deep_view(), msgs.deep_view()).1 == dedup_spec(
                seen.deep_view(),
                msgs.deep_view().skip(i as int),
            ).1,
        decreases n - i,
    {
        let m = &msgs[i];
        let ghost sfx = msgs.deep_view().skip(i as int);
        proof {
            assert(sfx[0] == msgs.deep_view()[i as int]);
            assert(msgs.deep_view()[i as int] == msgs@[i as int]@);
            assert(sfx.drop_first() =~= msgs.deep_view().skip(i as int + 1));
        }
        match find_root_id(m.as_str()) {
            None => {
                let ghost pre = kept.deep_view();
                kept.push(m.clone());
                proof {
                    assert(kept.deep_view() =~= pre.push(msgs@[i as int]@)) by {
                        assert(forall|j: int|
                            0 <= j < kept@.len() ==> kept.deep_view()[j] == #[trigger] kept@[j]@);
                    }
                    assert(forall|b: Seq<Seq<char>>|
                        pre.push(sfx[0]) + b =~= pre + (seq![sfx[0]] + b));
                }
            },
            Some(id) => {
                if contains_id(seen, id.as_str()) {
                } else {
                    let ghost pre_seen = seen.deep_view();
                    seen.push(id);
                    let ghost pre = kept.deep_view();
                    kept.push(m.clone());
                    proof {
                        assert(seen.deep_view() =~= pre_seen.push(id@)) by {
                            assert(forall|j: int|
                                0 <= j < seen@.len() ==> seen.deep_view()[j]
                                    == #[trigger] seen@[j]@);
                        }
                        assert(kept.deep_view() =~= pre.push(msgs@[i as int]@)) by {
                            assert(forall|j: int|
                                0 <= j < kept@.len() ==> kept.deep_view()[j]
                                    == #[trigger] kept@[j]@);
                        }
                        assert(forall|b: Seq<Seq<char>>|
                            pre.push(sfx[0]) + b =~= pre + (seq![sfx[0]] + b));
                    }
                }
            },
        }
        i = i + 1;
    }
    proof {
        assert(msgs.deep_view().skip(n as int) =~= Seq::<Seq<char>>::empty());
        assert(kept.deep_view() + Seq::<Seq<char>>::empty() =~= kept.deep_view());
    }
    kept
}

/// Deduplication keeps only fresh ids, in first-seen order: no kept message
/// carries an id already seen or kept before it, id-less messages all pass
/// through in order, and every id of the batch ends up recorded.
pub proof fn lemma_dedup_first_seen(seen: Seq<Seq<char>>, msgs: Seq<Seq<char>>)
    ensures
        forall|i: int, j: int|
            0 <= i < j < dedup_spec(seen, msgs).0.len() && extract_root_id(
                #[trigger] dedup_spec(seen, msgs).0[i],
            ) is Some ==> extract_root_id(dedup_spec(seen, msgs).0[i]) != extract_root_id(
                #[trigger] dedup_spec(seen, msgs).0[j],
            ),
        forall|i: int|
            0 <= i < dedup_spec(seen, msgs).0.len() && (extract_root_id(
                #[trigger] dedup_spec(seen, msgs).0[i],
            ) matches Some(id) && seen.contains(id)) ==> false,
        forall|i: int|
            0 <= i < dedup_spec(seen, msgs).0.len() ==> msgs.contains(
                #[trigger] dedup_spec(seen, msgs).0[i],
            ),
        forall|i: int|
            0 <= i < msgs.len() && (extract_root_id(#[trigger] msgs[i]) matches Some(id)
                && !dedup_spec(seen, msgs).1.contains(id)) ==> false,
        forall|id: Seq<char>|
            #[trigger] seen.contains(id) ==> dedup_spec(seen, msgs).1.contains(id),
    decreases msgs.len(),
{
    if msgs.len() == 0 {
    } else {
        let rest = msgs.drop_first();
        assert(forall|m: Seq<char>| rest.contains(m) ==> #[trigger] msgs.contains(m)) by {
            assert(forall|k: int| 0 <= k < rest.len() ==> rest[k] == #[trigger] msgs[k + 1]);
        }
        assert(forall|k: int| 0 <= k < rest.len() ==> #[trigger] rest[k] == msgs[k + 1]);
        assert forall|i: int| 1 <= i < msgs.len() implies extract_root_id(#[trigger] msgs[i])
            == extract_root_id(rest[i - 1]) by {
            assert(rest[i - 1] == msgs[i]);
        }
        match extract_root_id(msgs[0]) {
            Option::None => {
                lemma_dedup_first_seen(seen, rest);
                let kept = dedup_spec(seen, msgs).0;
                let krest = dedup_spec(seen, rest).0;
                assert(forall|k: int| 1 <= k < kept.len() ==> kept[k] == #[trigger] krest[k - 1]);
                assert(msgs.contains(msgs[0]));
            },
            Option::Some(id0) => {
                if seen.contains(id0) {
                    lemma_dedup_first_seen(seen, rest);
                } else {
                    lemma_dedup_first_seen(seen.push(id0), rest);
                    let kept = dedup_spec(seen, msgs).0;
                    let krest = dedup_spec(seen.push(id0), rest).0;
                    assert(forall|k: int|
                        1 <= k < kept.len() ==> kept[k] == #[trigger] krest[k - 1]);
                    assert(msgs.contains(msgs[0]));
                    assert(seen.push(id0).contains(id0)) by {
                        assert(seen.push(id0)[seen.len() as int] == id0);
                    }
                    assert(forall|id: Seq<char>|
                        #[trigger] seen.contains(id) ==> seen.push(id0).contains(id)) by {
                        assert(forall|k: int|
                            0 <= k < seen.len() ==> seen.push(id0)[k] == #[trigger] seen[k]);
                    }
                }
            },
        }
    }
}

// ---------------------------------------------------------------------------
// Acknowledgments and reliable publish
// ---------------------------------------------------------------------------
/// Whether a payload is the ack envelope for the given message id.
pub open spec fn is_ack_for(s: Seq<char>, id: Seq<char>) -> bool {
    parse_envelope(s) == Option::Some(A2AEnvelopeView::Ack { message_id: id })
}

/// Whether a batch contains an ack for the given message id.
pub open spec fn ack_present(msgs: Seq<Seq<char>>, id: Seq<char>) -> bool {
    exists|i: int| 0 <= i < msgs.len() && is_ack_for(#[trigger] msgs[i], id)
}

/// Scan a polled batch for an ack envelope carrying the given message id.
pub fn find_ack(msgs: &Vec<String>, message_id: &str) -> (r: bool)
    ensures
        r == ack_present(msgs.deep_view(), message_id@),
{
    let n = msgs.len();
    let mut i: usize = 0;
    while i < n
        invariant
            i <= n,
            n == msgs@.len(),
            forall|j: int| 0 <= j < i ==> !is_ack_for(msgs.deep_view()[j], message_id@),
        decreases n - i,
    {
        proof {
            assert(msgs.deep_view()[i as int] == msgs@[i as int]@);
        }
        match decode_envelope(msgs[i].as_str()) {
            Some(A2AEnvelope::Ack { message_id: mid }) => {
                if str_eq(mid.as_str(), message_id) {
                    proof {
                        assert(is_ack_for(msgs.deep_view()[i as int], message_id@));
                    }
                    return true;
                }
            },
            _ => {},
        }
        i = i + 1;
    }
    proof {
        if ack_present(msgs.deep_view(), message_id@) {
            let j = choose|j: int|
                0 <= j < msgs.deep_view().len() && is_ack_for(
                    #[trigger] msgs.deep_view()[j],
                    message_id@,
                );
            assert(false);
        }
    }
    false
}

/// Publish the fire-and-forget ack envelope for a received message id on its
/// ack topic.
pub fn send_ack_on<T: WakuTransport>(t: &mut T, message_id: &str) -> (r: Result<(), A2AError>)
{
    let topic = ack_topic(message_id);
    let env = A2AEnvelope::Ack { message_id: message_id.to_owned() };
    let payload = encode_envelope(&env);
    t.publish(topic.as_str(), payload.as_str())
}

/// Reliable publish: send, then wait up to `ACK_TIMEOUT_MS` for an ack on
/// the message's ack topic, polling every `POLL_INTERVAL_MS` through the
/// transport's `wait`, retransmitting up to `MAX_RETRIES` times.  `Ok(true)`
/// means an ack envelope for this id came back; `Ok(false)` means every
/// window elapsed unacknowledged; a transport failure of the publish itself
/// aborts the retries.  The scan of each polled batch is exact
/// (`find_ack`); whether an ack arrives is up to the transport and the
/// peer.
pub fn publish_reliable_on<T: WakuTransport>(
    t: &mut T,
    topic: &str,
    payload: &str,
    message_id: &str,
) -> (r: Result<bool, A2AError>)
{
    let ack_t = ack_topic(message_id);
    let sub = match t.subscribe(ack_t.as_str()) {
        Ok(s) => s,
        Err(e) => {
            return Err(e);
        },
    };
    let mut attempt: u32 = 0;
    while attempt <= MAX_RETRIES
        invariant
            attempt <= MAX_RETRIES + 1,
        decreases MAX_RETRIES + 1 - attempt,
    {
        match t.publish(topic, payload) {
            Ok(()) => {},
            Err(e) => {
                return Err(e);
            },
        }
        let mut waited: u64 = 0;
        while waited < ACK_TIMEOUT_MS
            invariant
                waited <= ACK_TIMEOUT_MS,
            decreases ACK_TIMEOUT_MS - waited,
        {
            t.wait(POLL_INTERVAL_MS);
            let batch = match t.poll(sub) {
                Ok(b) => b,
                Err(_) => Vec::new(),
            };
            if find_ack(&batch, message_id) {
                let _ = t.unsubscribe(ack_t.as_str());
                return Ok(true);
            }
            if ACK_TIMEOUT_MS - waited < POLL_INTERVAL_MS {
                waited = ACK_TIMEOUT_MS;
            } else {
                waited = waited + POLL_INTERVAL_MS;
            }
        }
        attempt = attempt + 1;
    }
    let _ = t.unsubscribe(ack_t.as_str());
    Ok(false)
}

/// The reliability layer wrapped around a transport it owns: reliable send,
/// acks, and received-batch deduplication.
pub struct SdsTransport<T: WakuTransport> {
    inner: T,
    seen_ids: Vec<String>,
}

impl<T: WakuTransport> SdsTransport<T> {
    /// The ids this layer has seen, in the order they were first seen.
    pub closed spec fn seen(&self) -> Seq<Seq<char>> {
        self.seen_ids.deep_view()
    }

    pub fn new(transport: T) -> (r: SdsTransport<T>)
        ensures
            r.seen() == Seq::<Seq<char>>::empty(),
    {
        let r = SdsTransport { inner: transport, seen_ids: Vec::new() };
        proof {
            assert(r.seen() =~= Seq::<Seq<char>>::empty());
        }
        r
    }

    /// The wrapped transport.
    pub fn inner(&self) -> &T {
        &self.inner
    }

    /// The wrapped transport, mutably, for driving it directly.
    pub fn inner_mut(&mut self) -> &mut T {
        &mut self.inner
    }

    /// Whether a message id has been seen before.
    pub fn is_duplicate(&self, message_id: &str) -> (r: bool)
        ensures
            r == self.seen().contains(message_id@),
    {
        contains_id(&self.seen_ids, message_id)
    }

    /// Record a message id as seen.
    pub fn mark_seen(&mut self, message_id: &str)
        ensures
            final(self).seen() == if old(self).seen().contains(message_id@) {
                old(self).seen()
            } else {
                old(self).seen().push(message_id@)
            },
    {
        if !contains_id(&self.seen_ids, message_id) {
            let ghost pre = self.seen_ids.deep_view();
            self.seen_ids.push(message_id.to_owned());
            proof {
                assert(self.seen_ids.deep_view() =~= pre.push(message_id@)) by {
                    assert(forall|j: int|
                        0 <= j < self.seen_ids@.len() ==> self.seen_ids.deep_view()[j]
                            == #[trigger] self.seen_ids@[j]@);
                }
            }
        }
    }

    /// Filter a received batch down to its first-seen messages.
    pub fn filter_dedup(&mut self, msgs: Vec<String>) -> (r: Vec<String>)
        ensures
            (r.deep_view(), final(self).seen()) == dedup_spec(old(self).seen(), msgs.deep_view()),
    {
        dedup_batch(&mut self.seen_ids, msgs)
    }

    /// Send the ack for a received message id.
    pub fn send_ack(&mut self, message_id: &str) -> (r: Result<(), A2AError>)
        ensures
            final(self).seen() == old(self).seen(),
    {
        send_ack_on(&mut self.inner, message_id)
    }

    /// Reliable publish with ack-or-retransmit; see `publish_reliable_on`.
    pub fn publish_reliable(&mut self, topic: &str, payload: &str, message_id: &str) -> (r: Result<
        bool,
        A2AError,
    >)
        ensures
            final(self).seen() == old(self).seen(),
    {
        publish_reliable_on(&mut self.inner, topic, payload, message_id)
    }
}

} // verus!
