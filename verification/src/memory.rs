//! Transports for in-process use and testing: a shared in-memory hub with
//! history replay, a transport that drops leading publishes on one topic,
//! and a transport that acknowledges every delivered task, standing in for a
//! live peer when exercising the retransmit path.

use vstd::prelude::*;

verus! {

use crate::A2AError;
use crate::chars::str_eq;
use crate::codec::decode_envelope;
use crate::model::A2AEnvelope;
use crate::sds::send_ack_on;
use crate::topics::task_topic;
use crate::transport::WakuTransport;

struct TopicEntry {
    name: String,
    history: Vec<String>,
}

struct SubEntry {
    topic: String,
    cursor: usize,
    active: bool,
}

/// A subscription as the contracts see it.
pub struct SubView {
    pub topic: Seq<char>,
    pub cursor: nat,
    pub active: bool,
}

/// An in-memory transport: published payloads are appended to a per-topic
/// history, and a subscriber polls everything published on its topic since
/// its last poll.  A new subscription starts at the beginning of the
/// history, so a publish performed before the subscribe is still observed —
/// the history-replay property tests rely on.
pub struct InMemoryTransport {
    topics: Vec<TopicEntry>,
    subs: Vec<SubEntry>,
}

impl InMemoryTransport {
    spec fn names_distinct(&self) -> bool {
        forall|i: int, j: int|
            0 <= i < j < self.topics@.len() ==> #[trigger] self.topics@[i].name@
                != #[trigger] self.topics@[j].name@
    }

    /// Distinct topic names, and every subscription cursor within its
    /// topic's history.
    pub closed spec fn wf(&self) -> bool {
        &&& self.names_distinct()
        &&& forall|k: int|
            0 <= k < self.subs@.len() ==> #[trigger] self.subs@[k].cursor <= self.history(
                self.subs@[k].topic@,
            ).len()
    }

    /// Everything ever published on a topic, in order.
    pub closed spec fn history(&self, topic: Seq<char>) -> Seq<Seq<char>> {
        if exists|i: int| 0 <= i < self.topics@.len() && #[trigger] self.topics@[i].name@ == topic {
            let i = choose|i: int|
                0 <= i < self.topics@.len() && #[trigger] self.topics@[i].name@ == topic;
            self.topics@[i].history.deep_view()
        } else {
            Seq::empty()
        }
    }

    /// The subscriptions, in the order they were opened.
    pub closed spec fn subs(&self) -> Seq<SubView> {
        Seq::new(
            self.subs@.len(),
            |k: int|
                SubView {
                    topic: self.subs@[k].topic@,
                    cursor: self.subs@[k].cursor as nat,
                    active: self.subs@[k].active,
                },
        )
    }

    pub fn new() -> (r: InMemoryTransport)
        ensures
            r.wf(),
            forall|t: Seq<char>| #[trigger] r.history(t) == Seq::<Seq<char>>::empty(),
            r.subs() == Seq::<SubView>::empty(),
    {
        let r = InMemoryTransport { topics: Vec::new(), subs: Vec::new() };
        proof {
            assert(r.subs() =~= Seq::<SubView>::empty());
        }
        r
    }

    /// The index of a topic's entry, if one exists.
    fn find_topic(&self, topic: &str) -> (r: Option<usize>)
        ensures
            match r {
                Option::Some(i) => i < self.topics@.len() && self.topics@[i as int].name@
                    == topic@,
                Option::None => forall|i: int|
                    0 <= i < self.topics@.len() ==> #[trigger] self.topics@[i].name@ != topic@,
            },
    {
        let n = self.topics.len();
        let mut i: usize = 0;
        while i < n
            invariant
                i <= n,
                n == self.topics@.len(),
                forall|j: int| 0 <= j < i ==> #[trigger] self.topics@[j].name@ != topic@,
            decreases n - i,
        {
            if str_eq(self.topics[i].name.as_str(), topic) {
                return Some(i);
            }
            i = i + 1;
        }
        None
    }

    proof fn lemma_history_at(&self, i: int)
        requires
            self.names_distinct(),
            0 <= i < self.topics@.len(),
        ensures
            self.history(self.topics@[i].name@) == self.topics@[i].history.deep_view(),
    {
        let t = self.topics@[i].name@;
        let j = choose|j: int| 0 <= j < self.topics@.len() && #[trigger] self.topics@[j].name@ == t;
        assert(j == i);
    }
}

impl WakuTransport for InMemoryTransport {
    fn publish(&mut self, topic: &str, payload: &str) -> (r: Result<(), A2AError>)
        ensures
            old(self).wf() ==> {
                &&& final(self).wf()
                &&& r is Ok
                &&& final(self).history(topic@) == old(self).history(topic@).push(payload@)
                &&& forall|t: Seq<char>|
                    t != topic@ ==> #[trigger] final(self).history(t) == old(self).history(t)
                &&& final(self).subs() == old(self).subs()
            },
    {
        match self.find_topic(topic) {
            Some(i) => {
                let ghost pre = self.topics@[i as int].history.deep_view();
                let entry = &mut self.topics[i];
                entry.history.push(payload.to_owned());
                proof {
                    if old(self).wf() {
                        assert(self.topics@[i as int].history.deep_view() =~= pre.push(payload@))
                            by {
                            assert(forall|k: int|
                                0 <= k < self.topics@[i as int].history@.len()
                                    ==> self.topics@[i as int].history.deep_view()[k]
                                    == #[trigger] self.topics@[i as int].history@[k]@);
                        }
                        assert(self.topics@.len() == old(self).topics@.len());
                        assert(forall|k: int|
                            0 <= k < self.topics@.len() && k != i ==> self.topics@[k]
                                == #[trigger] old(self).topics@[k]);
                        assert(self.topics@[i as int].name@ == old(self).topics@[i as int].name@);
                        assert(self.names_distinct());
                        old(self).lemma_history_at(i as int);
                        self.lemma_history_at(i as int);
                        assert forall|t: Seq<char>| t != topic@ implies #[trigger] self.history(t)
                            == old(self).history(t) by {
                            if exists|k: int|
                                0 <= k < old(self).topics@.len()
                                    && #[trigger] old(self).topics@[k].name@ == t {
                                let k = choose|k: int|
                                    0 <= k < old(self).topics@.len()
                                        && #[trigger] old(self).topics@[k].name@ == t;
                                let k2 = choose|k2: int|
                                    0 <= k2 < self.topics@.len()
                                        && #[trigger] self.topics@[k2].name@ == t;
                                assert(self.topics@[k].name@ == t);
                                assert(k2 == k);
                            }
                        }
                        assert(final(self).subs() =~= old(self).subs());
                        assert(final(self).wf());
                    }
                }
                Ok(())
            },
            None => {
                let mut history: Vec<String> = Vec::new();
                history.push(payload.to_owned());
                let ghost pre_topics = self.topics@;
                self.topics.push(TopicEntry { name: topic.to_owned(), history });
                proof {
                    if old(self).wf() {
                        let m = pre_topics.len() as int;
                        assert(self.topics@[m].name@ == topic@);
                        assert(forall|k: int|
                            0 <= k < m ==> self.topics@[k] == #[trigger] old(self).topics@[k]);
                        assert(self.names_distinct());
                        assert(self.topics@[m].history.deep_view() =~= seq![payload@]) by {
                            assert(self.topics@[m].history@.len() == 1);
                            assert(self.topics@[m].history.deep_view()[0]
                                == self.topics@[m].history@[0]@);
                        }
                        assert(old(self).history(topic@) =~= Seq::<Seq<char>>::empty());
                        self.lemma_history_at(m);
                        assert(final(self).history(topic@) =~= old(self).history(topic@).push(
                            payload@,
                        ));
                        assert forall|t: Seq<char>| t != topic@ implies #[trigger] self.history(t)
                            == old(self).history(t) by {
                            if exists|k: int|
                                0 <= k < self.topics@.len() && #[trigger] self.topics@[k].name@
                                    == t {
                                let k = choose|k: int|
                                    0 <= k < self.topics@.len() && #[trigger] self.topics@[k].name@
                                        == t;
                                assert(k < m);
                                assert(old(self).topics@[k].name@ == t);
                                old(self).lemma_history_at(k);
                                self.lemma_history_at(k);
                            } else {
                                assert forall|k: int|
                                    0 <= k < old(self).topics@.len() implies #[trigger] old(
                                    self,
                                ).topics@[k].name@ != t by {
                                    assert(self.topics@[k].name@ == old(self).topics@[k].name@);
                                }
                            }
                        }
                        assert(final(self).subs() =~= old(self).subs());
                        assert forall|k: int| 0 <= k < self.subs@.len() implies #[trigger] self
                            .subs@[k].cursor <= self.history(self.subs@[k].topic@).len() by {
                            assert(old(self).subs@[k] == self.subs@[k]);
                        }
                        assert(final(self).wf());
                    }
                }
                Ok(())
            },
        }
    }

    fn subscribe(&mut self, topic: &str) -> (r: Result<usize, A2AError>)
        ensures
            old(self).wf() ==> {
                &&& final(self).wf()
                &&& r matches Ok(s) && s == old(self).subs().len()
                &&& final(self).subs() == old(self).subs().push(
                    (SubView { topic: topic@, cursor: 0, active: true }),
                )
                &&& forall|t: Seq<char>| #[trigger] final(self).history(t) == old(self).history(t)
            },
    {
        let s = self.subs.len();
        self.subs.push(SubEntry { topic: topic.to_owned(), cursor: 0, active: true });
        proof {
            if old(self).wf() {
                assert(self.topics@ == old(self).topics@);
                assert(final(self).subs() =~= old(self).subs().push(
                    (SubView { topic: topic@, cursor: 0, active: true }),
                ));
                assert forall|k: int| 0 <= k < self.subs@.len() implies #[trigger] self
                    .subs@[k].cursor <= self.history(self.subs@[k].topic@).len() by {
                    if k < s {
                        assert(old(self).subs@[k] == self.subs@[k]);
                    }
                }
            }
        }
        Ok(s)
    }

    fn poll(&mut self, sub: usize) -> (r: Result<Vec<String>, A2AError>)
        ensures
            old(self).wf() ==> {
                &&& final(self).wf()
                &&& if sub < old(self).subs().len() && old(self).subs()[sub as int].active {
                    let sv = old(self).subs()[sub as int];
                    &&& r matches Ok(v) && v.deep_view() == old(self).history(sv.topic).skip(
                        sv.cursor as int,
                    )
                    &&& final(self).subs() == old(self).subs().update(
                        sub as int,
                        (SubView {
                            topic: sv.topic,
                            cursor: old(self).history(sv.topic).len(),
                            active: true,
                        }),
                    )
                    &&& forall|t: Seq<char>| #[trigger] final(self).history(t) == old(self).history(
                        t,
                    )
                } else {
                    &&& r is Err
                    &&& *final(self) == *old(self)
                }
            },
    {
        let ns = self.subs.len();
        if sub >= ns {
            return Err(A2AError::Transport);
        }
        if !self.subs[sub].active {
            return Err(A2AError::Transport);
        }
        let topic_owned = self.subs[sub].topic.clone();
        let cursor = self.subs[sub].cursor;
        let mut out: Vec<String> = Vec::new();
        let hist_len: usize;
        match self.find_topic(topic_owned.as_str()) {
            Some(ti) => {
                proof {
                    if old(self).wf() {
                        self.lemma_history_at(ti as int);
                    }
                }
                let entry_len = self.topics[ti].history.len();
                hist_len = entry_len;
                let mut k: usize = if cursor <= entry_len {
                    cursor
                } else {
                    entry_len
                };
                let ghost start = k;
                while k < entry_len
                    invariant
                        start <= k <= entry_len,
                        ti < self.topics@.len(),
                        entry_len == self.topics@[ti as int].history@.len(),
                        out.deep_view() =~= self.topics@[ti as int].history.deep_view().subrange(
                            start as int,
                            k as int,
                        ),
                    decreases entry_len - k,
                {
                    let ghost pre = out.deep_view();
                    out.push(self.topics[ti].history[k].clone());
                    proof {
                        assert(out.deep_view() =~= pre.push(
                            self.topics@[ti as int].history@[k as int]@,
                        )) by {
                            assert(forall|j: int|
                                0 <= j < out@.len() ==> out.deep_view()[j]
                                    == #[trigger] out@[j]@);
                        }
                        assert(out.deep_view() =~= self.topics@[
                            ti as int
                        ].history.deep_view().subrange(start as int, k as int + 1));
                    }
                    k = k + 1;
                }
            },
            None => {
                hist_len = 0;
            },
        }
        let sube = &mut self.subs[sub];
        sube.cursor = hist_len;
        proof {
            if old(self).wf() {
                let sv = old(self).subs()[sub as int];
                assert(sv.topic == topic_owned@);
                assert(old(self).history(sv.topic).skip(sv.cursor as int) =~= out.deep_view());
                assert(final(self).subs() =~= old(self).subs().update(
                    sub as int,
                    (SubView {
                        topic: sv.topic,
                        cursor: old(self).history(sv.topic).len(),
                        active: true,
                    }),
                ));
                assert(self.topics@ == old(self).topics@);
                assert forall|k2: int| 0 <= k2 < self.subs@.len() implies #[trigger] self
                    .subs@[k2].cursor <= self.history(self.subs@[k2].topic@).len() by {
                    if k2 != sub {
                        assert(old(self).subs@[k2] == self.subs@[k2]);
                    }
                }
            }
        }
        Ok(out)
    }

    fn unsubscribe(&mut self, topic: &str) -> (r: Result<(), A2AError>)
        ensures
            old(self).wf() ==> {
                &&& final(self).wf()
                &&& r is Ok
                &&& forall|t: Seq<char>| #[trigger] final(self).history(t) == old(self).history(t)
                &&& final(self).subs().len() == old(self).subs().len()
                &&& forall|k: int|
                    0 <= k < old(self).subs().len() && old(self).subs()[k].topic == topic@
                        ==> #[trigger] final(self).subs()[k] == (SubView {
                        topic: old(self).subs()[k].topic,
                        cursor: old(self).subs()[k].cursor,
                        active: false,
                    })
                &&& forall|k: int|
                    0 <= k < old(self).subs().len() && old(self).subs()[k].topic != topic@
                        ==> #[trigger] final(self).subs()[k] == old(self).subs()[k]
            },
    {
        let n = self.subs.len();
        let mut i: usize = 0;
        while i < n
            invariant
                i <= n,
                n == self.subs@.len(),
                n == old(self).subs@.len(),
                self.topics@ == old(self).topics@,
                forall|k: int|
                    0 <= k < n ==> #[trigger] self.subs@[k].topic@ == old(self).subs@[k].topic@
                        && self.subs@[k].cursor == old(self).subs@[k].cursor,
                forall|k: int|
                    0 <= k < i ==> #[trigger] self.subs@[k].active == (if old(
                        self,
                    ).subs@[k].topic@ == topic@ {
                        false
                    } else {
                        old(self).subs@[k].active
                    }),
                forall|k: int|
                    i <= k < n ==> #[trigger] self.subs@[k].active == old(self).subs@[k].active,
            decreases n - i,
        {
            let is_match = str_eq(self.subs[i].topic.as_str(), topic);
            if is_match {
                let sube = &mut self.subs[i];
                sube.active = false;
            }
            i = i + 1;
        }
        proof {
            if old(self).wf() {
                assert forall|k: int| 0 <= k < self.subs@.len() implies #[trigger] self
                    .subs@[k].cursor <= self.history(self.subs@[k].topic@).len() by {
                    assert(self.subs@[k].topic@ == old(self).subs@[k].topic@);
                    assert(self.subs@[k].cursor == old(self).subs@[k].cursor);
                }
            }
        }
        Ok(())
    }

    fn wait(&mut self, _ms: u64) {
        // in-process delivery is immediate; nothing to wait for
    }
}

/// A transport that silently drops the first `drops_left` publishes on one
/// topic and forwards everything else: the lossy network of the
/// at-least-once delivery scenario.
pub struct DroppingTransport<T: WakuTransport> {
    inner: T,
    drop_topic: String,
    drops_left: usize,
    dropped: usize,
    forwarded: usize,
}

impl<T: WakuTransport> DroppingTransport<T> {
    pub closed spec fn dropped_count(&self) -> nat {
        self.dropped as nat
    }

    pub closed spec fn forwarded_count(&self) -> nat {
        self.forwarded as nat
    }

    pub fn new(inner: T, drop_topic: String, drops: usize) -> (r: DroppingTransport<T>)
        ensures
            r.dropped_count() == 0,
            r.forwarded_count() == 0,
    {
        DroppingTransport { inner, drop_topic, drops_left: drops, dropped: 0, forwarded: 0 }
    }

    /// How many publishes on the configured topic were swallowed.
    pub fn dropped(&self) -> (r: usize)
        ensures
            r == self.dropped_count(),
    {
        self.dropped
    }

    /// How many publishes on the configured topic went through.
    pub fn forwarded(&self) -> (r: usize)
        ensures
            r == self.forwarded_count(),
    {
        self.forwarded
    }

    pub fn into_inner(self) -> T {
        self.inner
    }
}

impl<T: WakuTransport> WakuTransport for DroppingTransport<T> {
    fn publish(&mut self, topic: &str, payload: &str) -> (r: Result<(), A2AError>) {
        if str_eq(topic, self.drop_topic.as_str()) {
            if self.drops_left > 0 {
                self.drops_left = self.drops_left - 1;
                if self.dropped < usize::MAX {
                    self.dropped = self.dropped + 1;
                }
                return Ok(());
            }
            if self.forwarded < usize::MAX {
                self.forwarded = self.forwarded + 1;
            }
        }
        self.inner.publish(topic, payload)
    }

    fn subscribe(&mut self, topic: &str) -> (r: Result<usize, A2AError>) {
        self.inner.subscribe(topic)
    }

    fn poll(&mut self, sub: usize) -> (r: Result<Vec<String>, A2AError>) {
        self.inner.poll(sub)
    }

    fn unsubscribe(&mut self, topic: &str) -> (r: Result<(), A2AError>) {
        self.inner.unsubscribe(topic)
    }

    fn wait(&mut self, ms: u64) {
        self.inner.wait(ms);
    }
}

/// A transport that acknowledges every task envelope it delivers, standing
/// in for a live recipient: after a task addressed to some agent goes
/// through, the matching ack envelope is published on the task's ack topic.
pub struct AckingTransport<T: WakuTransport> {
    inner: T,
}

impl<T: WakuTransport> AckingTransport<T> {
    pub fn new(inner: T) -> (r: AckingTransport<T>) {
        AckingTransport { inner }
    }

    pub fn into_inner(self) -> T {
        self.inner
    }
}

impl<T: WakuTransport> WakuTransport for AckingTransport<T> {
    fn publish(&mut self, topic: &str, payload: &str) -> (r: Result<(), A2AError>) {
        let res = self.inner.publish(topic, payload);
        if res.is_ok() {
            match decode_envelope(payload) {
                Some(A2AEnvelope::Task(task)) => {
                    let expected = task_topic(task.to.as_str());
                    if str_eq(topic, expected.as_str()) {
                        let _ = send_ack_on(&mut self.inner, task.id.as_str());
                    }
                },
                _ => {},
            }
        }
        res
    }

    fn subscribe(&mut self, topic: &str) -> (r: Result<usize, A2AError>) {
        self.inner.subscribe(topic)
    }

    fn poll(&mut self, sub: usize) -> (r: Result<Vec<String>, A2AError>) {
        self.inner.poll(sub)
    }

    fn unsubscribe(&mut self, topic: &str) -> (r: Result<(), A2AError>) {
        self.inner.unsubscribe(topic)
    }

    fn wait(&mut self, ms: u64) {
        self.inner.wait(ms);
    }
}

} // verus!
