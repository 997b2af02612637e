//! The relay polling adapter's pure half: a relay's message listing is
//! filtered by content topic and its base64 payloads are decoded, skipping
//! malformed entries.  The HTTP side hands the decoded listing in as plain
//! values.

use vstd::prelude::*;

verus! {

use crate::chars::{bytes_to_string, str_eq};
use crate::encoding::{b64_decode_loose, base64_decode};
use vstd::utf8::{decode_utf8, valid_utf8};

/// One entry of a relay's message listing: the content topic it was
/// published on, if the relay reports one, and the base64 payload.
pub struct PollEntry {
    pub content_topic: Option<String>,
    pub payload: String,
}

#[verifier::ext_equal]
pub struct PollEntryView {
    pub content_topic: Option<Seq<char>>,
    pub payload: Seq<char>,
}

impl View for PollEntry {
    type V = PollEntryView;

    open spec fn view(&self) -> PollEntryView {
        PollEntryView {
            content_topic: match self.content_topic {
                Option::Some(t) => Option::Some(t@),
                Option::None => Option::None,
            },
            payload: self.payload@,
        }
    }
}

impl DeepView for PollEntry {
    type V = PollEntryView;

    open spec fn deep_view(&self) -> PollEntryView {
        self.view()
    }
}

/// Whether an entry belongs to the polled topic: entries without a reported
/// content topic pass through.
pub open spec fn poll_entry_keep(e: PollEntryView, topic: Seq<char>) -> bool {
    match e.content_topic {
        Option::Some(t) => t == topic,
        Option::None => true,
    }
}

/// The payloads a poll of `topic` surfaces from a relay listing: entries of
/// other topics are dropped, the rest are leniently base64-decoded, and
/// entries whose bytes are not text are skipped.
pub open spec fn poll_payloads_spec(entries: Seq<PollEntryView>, topic: Seq<char>) -> Seq<
    Seq<char>,
>
    decreases entries.len(),
{
    if entries.len() == 0 {
        Seq::empty()
    } else {
        let rest = poll_payloads_spec(entries.drop_first(), topic);
        if poll_entry_keep(entries[0], topic) {
            let bytes = b64_decode_loose(entries[0].payload);
            if valid_utf8(bytes) {
                seq![decode_utf8(bytes)] + rest
            } else {
                rest
            }
        } else {
            rest
        }
    }
}

/// Filter and decode a relay listing down to the payloads of one topic.
pub fn filter_poll_entries(entries: &Vec<PollEntry>, topic: &str) -> (r: Vec<String>)
    ensures
        r.deep_view() == poll_payloads_spec(entries.deep_view(), topic@),
{
    let n = entries.len();
    let mut out: Vec<String> = Vec::new();
    let mut i: usize = 0;
    proof {
        assert(entries.deep_view().skip(0) =~= entries.deep_view());
        assert(out.deep_view() + poll_payloads_spec(entries.deep_view(), topic@)
            =~= poll_payloads_spec(entries.deep_view(), topic@));
    }
    while i < n
        invariant
            i <= n,
            n == entries@.len(),
            entries.deep_view().len() == n,
            poll_payloads_spec(entries.deep_view(), topic@) == out.deep_view()
                + poll_payloads_spec(entries.deep_view().skip(i as int), topic@),
        decreases n - i,
    {
        let ghost sfx = entries.deep_view().skip(i as int);
        proof {
            assert(sfx[0] == entries.deep_view()[i as int]);
            assert(entries.deep_view()[i as int] == entries@[i as int]@);
            assert(sfx.drop_first() =~= entries.deep_view().skip(i as int + 1));
        }
        let entry = &entries[i];
        let keep = match &entry.content_topic {
            Some(t) => str_eq(t.as_str(), topic),
            None => true,
        };
        if keep {
            let bytes = match base64_decode(entry.payload.as_str()) {
                Ok(b) => b,
                Err(_) => Vec::new(),
            };
            match bytes_to_string(bytes) {
                Ok(text) => {
                    let ghost pre = out.deep_view();
                    let ghost tv = text@;
                    out.push(text);
                    proof {
                        assert(out.deep_view() =~= pre.push(tv)) by {
                            assert(forall|j: int|
                                0 <= j < out@.len() ==> out.deep_view()[j]
                                    == #[trigger] out@[j]@);
                        }
                        assert(forall|b: Seq<Seq<char>>|
                            pre.push(tv) + b =~= pre + (seq![tv] + b));
                    }
                },
                Err(_) => {},
            }
        }
        i = i + 1;
    }
    proof {
        assert(entries.deep_view().skip(n as int) =~= Seq::<PollEntryView>::empty());
        assert(out.deep_view() + Seq::<Seq<char>>::empty() =~= out.deep_view());
    }
    out
}

} // verus!
