//! The wire grammar: every payload is a JSON envelope with a `type`
//! discriminator.  The encoder writes the canonical compact form; the decoder
//! parses exactly that grammar (any field escaping, unknown discriminators
//! rejected), and decoding provably inverts encoding.

use vstd::prelude::*;

verus! {

use crate::chars::{push_char, str_chars, str_eq};
use crate::json::{
    expect, jstr, lemma_expect_rt, lemma_jstr_rt, parse_jstr, scan_jstr, scan_lit, write_jstr,
};
use crate::model::{
    A2AEnvelope, A2AEnvelopeView, AgentCard, AgentCardView, EncryptedPayload,
    EncryptedPayloadView, IntroBundle, IntroBundleView, Message, MessageView, Part, PartView,
    Task, TaskState, TaskView,
};
use vstd::string::StrSliceExecFns;
use vstd::string::StringExecFns;

// ---------------------------------------------------------------------------
// Spec printers
// ---------------------------------------------------------------------------
/// The word a task state is written as.
pub open spec fn state_word(st: TaskState) -> Seq<char> {
    match st {
        TaskState::Submitted => "submitted"@,
        TaskState::Working => "working"@,
        TaskState::InputRequired => "input_required"@,
        TaskState::Completed => "completed"@,
        TaskState::Failed => "failed"@,
        TaskState::Cancelled => "cancelled"@,
    }
}

pub open spec fn part_json(p: PartView) -> Seq<char> {
    match p {
        PartView::Text { text } => "{\"type\":\"text\",\"text\":"@ + jstr(text) + "}"@,
    }
}

/// The elements of a part array after the first, each preceded by a comma.
pub open spec fn parts_more_json(ps: Seq<PartView>) -> Seq<char>
    decreases ps.len(),
{
    if ps.len() == 0 {
        Seq::empty()
    } else {
        seq![','] + part_json(ps[0]) + parts_more_json(ps.drop_first())
    }
}

pub open spec fn parts_json(ps: Seq<PartView>) -> Seq<char> {
    if ps.len() == 0 {
        Seq::empty()
    } else {
        part_json(ps[0]) + parts_more_json(ps.drop_first())
    }
}

pub open spec fn parts_arr_json(ps: Seq<PartView>) -> Seq<char> {
    seq!['['] + parts_json(ps) + seq![']']
}

pub open spec fn message_json(m: MessageView) -> Seq<char> {
    "{\"role\":"@ + jstr(m.role) + ",\"parts\":"@ + parts_arr_json(m.parts) + "}"@
}

/// The string elements of an array after the first, each preceded by a comma.
pub open spec fn strs_more_json(xs: Seq<Seq<char>>) -> Seq<char>
    decreases xs.len(),
{
    if xs.len() == 0 {
        Seq::empty()
    } else {
        seq![','] + jstr(xs[0]) + strs_more_json(xs.drop_first())
    }
}

pub open spec fn strs_json(xs: Seq<Seq<char>>) -> Seq<char> {
    if xs.len() == 0 {
        Seq::empty()
    } else {
        jstr(xs[0]) + strs_more_json(xs.drop_first())
    }
}

pub open spec fn str_arr_json(xs: Seq<Seq<char>>) -> Seq<char> {
    seq!['['] + strs_json(xs) + seq![']']
}

/// The fields of a task, `id` through the optional `result`, with the
/// closing brace.
pub open spec fn result_opt_json(r: Option<MessageView>) -> Seq<char> {
    match r {
        Option::Some(m) => ",\"result\":"@ + message_json(m) + "}"@,
        Option::None => "}"@,
    }
}

pub open spec fn task_tail_json(t: TaskView) -> Seq<char> {
    "\"id\":"@ + jstr(t.id) + ",\"from\":"@ + jstr(t.from) + ",\"to\":"@ + jstr(t.to)
        + ",\"state\":"@ + jstr(state_word(t.state)) + ",\"message\":"@ + message_json(t.message)
        + result_opt_json(t.result)
}

/// A bare task object, as sealed inside an encrypted envelope.
pub open spec fn task_json(t: TaskView) -> Seq<char> {
    seq!['{'] + task_tail_json(t)
}

pub open spec fn bundle_json(b: IntroBundleView) -> Seq<char> {
    "{\"agent_pubkey\":"@ + jstr(b.agent_pubkey) + ",\"version\":"@ + jstr(b.version) + "}"@
}

/// The fields of an agent card, `name` through the optional `intro_bundle`,
/// with the closing brace.
pub open spec fn bundle_opt_json(b: Option<IntroBundleView>) -> Seq<char> {
    match b {
        Option::Some(b) => ",\"intro_bundle\":"@ + bundle_json(b) + "}"@,
        Option::None => "}"@,
    }
}

pub open spec fn card_tail_json(c: AgentCardView) -> Seq<char> {
    "\"name\":"@ + jstr(c.name) + ",\"description\":"@ + jstr(c.description) + ",\"version\":"@
        + jstr(c.version) + ",\"capabilities\":"@ + str_arr_json(c.capabilities)
        + ",\"public_key\":"@ + jstr(c.public_key) + bundle_opt_json(c.intro_bundle)
}

pub open spec fn payload_json(p: EncryptedPayloadView) -> Seq<char> {
    "{\"nonce\":"@ + jstr(p.nonce) + ",\"ciphertext\":"@ + jstr(p.ciphertext) + "}"@
}

/// The canonical JSON encoding of a wire envelope.
pub open spec fn envelope_json(e: A2AEnvelopeView) -> Seq<char> {
    match e {
        A2AEnvelopeView::AgentCard(c) => "{\"type\":"@ + jstr("agent_card"@) + ","@
            + card_tail_json(c),
        A2AEnvelopeView::Task(t) => "{\"type\":"@ + jstr("task"@) + ","@ + task_tail_json(t),
        A2AEnvelopeView::Ack { message_id } => "{\"type\":"@ + jstr("ack"@)
            + ",\"message_id\":"@ + jstr(message_id) + "}"@,
        A2AEnvelopeView::EncryptedTask { encrypted, sender_pubkey } => (
        "{\"type\":"@ + jstr("encrypted_task"@) + ",\"encrypted\":"@ + payload_json(encrypted)
            + ",\"sender_pubkey\":"@ + jstr(sender_pubkey) + "}"@),
    }
}

// ---------------------------------------------------------------------------
// Spec parsers
// ---------------------------------------------------------------------------
pub open spec fn parse_state(s: Seq<char>) -> Option<(TaskState, Seq<char>)> {
    match parse_jstr(s) {
        Option::Some((w, rest)) => {
            if w == "submitted"@ {
                Option::Some((TaskState::Submitted, rest))
            } else if w == "working"@ {
                Option::Some((TaskState::Working, rest))
            } else if w == "input_required"@ {
                Option::Some((TaskState::InputRequired, rest))
            } else if w == "completed"@ {
                Option::Some((TaskState::Completed, rest))
            } else if w == "failed"@ {
                Option::Some((TaskState::Failed, rest))
            } else if w == "cancelled"@ {
                Option::Some((TaskState::Cancelled, rest))
            } else {
                Option::None
            }
        },
        Option::None => Option::None,
    }
}

pub open spec fn parse_part(s: Seq<char>) -> Option<(PartView, Seq<char>)> {
    match expect(s, "{\"type\":\"text\",\"text\":"@) {
        Option::Some(s1) => match parse_jstr(s1) {
            Option::Some((t, s2)) => match expect(s2, "}"@) {
                Option::Some(s3) => Option::Some((PartView::Text { text: t }, s3)),
                Option::None => Option::None,
            },
            Option::None => Option::None,
        },
        Option::None => Option::None,
    }
}

pub open spec fn parse_parts_rest(s: Seq<char>, acc: Seq<PartView>, fuel: nat) -> Option<
    (Seq<PartView>, Seq<char>),
>
    decreases fuel,
{
    if s.len() > 0 && s[0] == ']' {
        Option::Some((acc, s.skip(1)))
    } else if s.len() > 0 && s[0] == ',' {
        match parse_part(s.skip(1)) {
            Option::Some((p, s2)) => {
                if fuel > 0 {
                    parse_parts_rest(s2, acc.push(p), (fuel - 1) as nat)
                } else {
                    Option::None
                }
            },
            Option::None => Option::None,
        }
    } else {
        Option::None
    }
}

/// Parse a `[...]` array of parts.
pub open spec fn parse_parts_arr(s: Seq<char>) -> Option<(Seq<PartView>, Seq<char>)> {
    match expect(s, "["@) {
        Option::Some(s1) => {
            if s1.len() > 0 && s1[0] == ']' {
                Option::Some((Seq::empty(), s1.skip(1)))
            } else {
                match parse_part(s1) {
                    Option::Some((p, s2)) => parse_parts_rest(s2, seq![p], s2.len()),
                    Option::None => Option::None,
                }
            }
        },
        Option::None => Option::None,
    }
}

pub open spec fn parse_message(s: Seq<char>) -> Option<(MessageView, Seq<char>)> {
    match expect(s, "{\"role\":"@) {
        Option::Some(s1) => match parse_jstr(s1) {
            Option::Some((role, s2)) => match expect(s2, ",\"parts\":"@) {
                Option::Some(s3) => match parse_parts_arr(s3) {
                    Option::Some((parts, s4)) => match expect(s4, "}"@) {
                        Option::Some(s5) => Option::Some(
                            (MessageView { role, parts }, s5),
                        ),
                        Option::None => Option::None,
                    },
                    Option::None => Option::None,
                },
                Option::None => Option::None,
            },
            Option::None => Option::None,
        },
        Option::None => Option::None,
    }
}

pub open spec fn parse_strs_rest(s: Seq<char>, acc: Seq<Seq<char>>, fuel: nat) -> Option<
    (Seq<Seq<char>>, Seq<char>),
>
    decreases fuel,
{
    if s.len() > 0 && s[0] == ']' {
        Option::Some((acc, s.skip(1)))
    } else if s.len() > 0 && s[0] == ',' {
        match parse_jstr(s.skip(1)) {
            Option::Some((x, s2)) => {
                if fuel > 0 {
                    parse_strs_rest(s2, acc.push(x), (fuel - 1) as nat)
                } else {
                    Option::None
                }
            },
            Option::None => Option::None,
        }
    } else {
        Option::None
    }
}

/// Parse a `[...]` array of strings.
pub open spec fn parse_str_arr(s: Seq<char>) -> Option<(Seq<Seq<char>>, Seq<char>)> {
    match expect(s, "["@) {
        Option::Some(s1) => {
            if s1.len() > 0 && s1[0] == ']' {
                Option::Some((Seq::empty(), s1.skip(1)))
            } else {
                match parse_jstr(s1) {
                    Option::Some((x, s2)) => parse_strs_rest(s2, seq![x], s2.len()),
                    Option::None => Option::None,
                }
            }
        },
        Option::None => Option::None,
    }
}

/// Parse the task fields `id` through the optional `result`, with the
/// closing brace.
pub open spec fn parse_task_tail(s: Seq<char>) -> Option<(TaskView, Seq<char>)> {
    match expect(s, "\"id\":"@) {
        Option::Some(s1) => match parse_jstr(s1) {
            Option::Some((id, s2)) => match expect(s2, ",\"from\":"@) {
                Option::Some(s3) => match parse_jstr(s3) {
                    Option::Some((from, s4)) => match expect(s4, ",\"to\":"@) {
                        Option::Some(s5) => match parse_jstr(s5) {
                            Option::Some((to, s6)) => match expect(s6, ",\"state\":"@) {
                                Option::Some(s7) => match parse_state(s7) {
                                    Option::Some((st, s8)) => match expect(s8, ",\"message\":"@) {
                                        Option::Some(s9) => match parse_message(s9) {
                                            Option::Some((msg, s10)) => parse_task_result(
                                                s10,
                                                id,
                                                from,
                                                to,
                                                st,
                                                msg,
                                            ),
                                            Option::None => Option::None,
                                        },
                                        Option::None => Option::None,
                                    },
                                    Option::None => Option::None,
                                },
                                Option::None => Option::None,
                            },
                            Option::None => Option::None,
                        },
                        Option::None => Option::None,
                    },
                    Option::None => Option::None,
                },
                Option::None => Option::None,
            },
            Option::None => Option::None,
        },
        Option::None => Option::None,
    }
}

/// Parse the optional `result` field and the task's closing brace.
pub open spec fn parse_task_result(
    s: Seq<char>,
    id: Seq<char>,
    from: Seq<char>,
    to: Seq<char>,
    st: TaskState,
    msg: MessageView,
) -> Option<(TaskView, Seq<char>)> {
    match expect(s, "}"@) {
        Option::Some(rest) => Option::Some(
            (
                TaskView {
                    id,
                    from,
                    to,
                    state: st,
                    message: msg,
                    result: Option::None,
                },
                rest,
            ),
        ),
        Option::None => match expect(s, ",\"result\":"@) {
            Option::Some(s1) => match parse_message(s1) {
                Option::Some((rm, s2)) => match expect(s2, "}"@) {
                    Option::Some(rest) => Option::Some(
                        (
                            TaskView {
                                id,
                                from,
                                to,
                                state: st,
                                message: msg,
                                result: Option::Some(rm),
                            },
                            rest,
                        ),
                    ),
                    Option::None => Option::None,
                },
                Option::None => Option::None,
            },
            Option::None => Option::None,
        },
    }
}

/// Parse a bare task object.
pub open spec fn parse_task(s: Seq<char>) -> Option<TaskView> {
    match expect(s, "{"@) {
        Option::Some(s1) => match parse_task_tail(s1) {
            Option::Some((t, rest)) => {
                if rest.len() == 0 {
                    Option::Some(t)
                } else {
                    Option::None
                }
            },
            Option::None => Option::None,
        },
        Option::None => Option::None,
    }
}

pub open spec fn parse_bundle(s: Seq<char>) -> Option<(IntroBundleView, Seq<char>)> {
    match expect(s, "{\"agent_pubkey\":"@) {
        Option::Some(s1) => match parse_jstr(s1) {
            Option::Some((pk, s2)) => match expect(s2, ",\"version\":"@) {
                Option::Some(s3) => match parse_jstr(s3) {
                    Option::Some((ver, s4)) => match expect(s4, "}"@) {
                        Option::Some(rest) => Option::Some(
                            (IntroBundleView { agent_pubkey: pk, version: ver }, rest),
                        ),
                        Option::None => Option::None,
                    },
                    Option::None => Option::None,
                },
                Option::None => Option::None,
            },
            Option::None => Option::None,
        },
        Option::None => Option::None,
    }
}

/// Parse the card fields `name` through the optional `intro_bundle`, with
/// the closing brace.
pub open spec fn parse_card_tail(s: Seq<char>) -> Option<(AgentCardView, Seq<char>)> {
    match expect(s, "\"name\":"@) {
        Option::Some(s1) => match parse_jstr(s1) {
            Option::Some((name, s2)) => match expect(s2, ",\"description\":"@) {
                Option::Some(s3) => match parse_jstr(s3) {
                    Option::Some((desc, s4)) => match expect(s4, ",\"version\":"@) {
                        Option::Some(s5) => match parse_jstr(s5) {
                            Option::Some((ver, s6)) => match expect(s6, ",\"capabilities\":"@) {
                                Option::Some(s7) => match parse_str_arr(s7) {
                                    Option::Some((caps, s8)) => match expect(
                                        s8,
                                        ",\"public_key\":"@,
                                    ) {
                                        Option::Some(s9) => match parse_jstr(s9) {
                                            Option::Some((pk, s10)) => parse_card_bundle(
                                                s10,
                                                name,
                                                desc,
                                                ver,
                                                caps,
                                                pk,
                                            ),
                                            Option::None => Option::None,
                                        },
                                        Option::None => Option::None,
                                    },
                                    Option::None => Option::None,
                                },
                                Option::None => Option::None,
                            },
                            Option::None => Option::None,
                        },
                        Option::None => Option::None,
                    },
                    Option::None => Option::None,
                },
                Option::None => Option::None,
            },
            Option::None => Option::None,
        },
        Option::None => Option::None,
    }
}

/// Parse the optional `intro_bundle` field and the card's closing brace.
pub open spec fn parse_card_bundle(
    s: Seq<char>,
    name: Seq<char>,
    desc: Seq<char>,
    ver: Seq<char>,
    caps: Seq<Seq<char>>,
    pk: Seq<char>,
) -> Option<(AgentCardView, Seq<char>)> {
    match expect(s, "}"@) {
        Option::Some(rest) => Option::Some(
            (
                AgentCardView {
                    name,
                    description: desc,
                    version: ver,
                    capabilities: caps,
                    public_key: pk,
                    intro_bundle: Option::None,
                },
                rest,
            ),
        ),
        Option::None => match expect(s, ",\"intro_bundle\":"@) {
            Option::Some(s1) => match parse_bundle(s1) {
                Option::Some((b, s2)) => match expect(s2, "}"@) {
                    Option::Some(rest) => Option::Some(
                        (
                            AgentCardView {
                                name,
                                description: desc,
                                version: ver,
                                capabilities: caps,
                                public_key: pk,
                                intro_bundle: Option::Some(b),
                            },
                            rest,
                        ),
                    ),
                    Option::None => Option::None,
                },
                Option::None => Option::None,
            },
            Option::None => Option::None,
        },
    }
}

pub open spec fn parse_payload(s: Seq<char>) -> Option<(EncryptedPayloadView, Seq<char>)> {
    match expect(s, "{\"nonce\":"@) {
        Option::Some(s1) => match parse_jstr(s1) {
            Option::Some((nonce, s2)) => match expect(s2, ",\"ciphertext\":"@) {
                Option::Some(s3) => match parse_jstr(s3) {
                    Option::Some((ct, s4)) => match expect(s4, "}"@) {
                        Option::Some(rest) => Option::Some(
                            (EncryptedPayloadView { nonce, ciphertext: ct }, rest),
                        ),
                        Option::None => Option::None,
                    },
                    Option::None => Option::None,
                },
                Option::None => Option::None,
            },
            Option::None => Option::None,
        },
        Option::None => Option::None,
    }
}

/// Parse a complete wire envelope.  Unknown `type` discriminators and
/// trailing input are rejected.
pub open spec fn parse_envelope(s: Seq<char>) -> Option<A2AEnvelopeView> {
    match expect(s, "{\"type\":"@) {
        Option::Some(s1) => match parse_jstr(s1) {
            Option::Some((tag, s2)) => {
                if tag == "agent_card"@ {
                    match expect(s2, ","@) {
                        Option::Some(s3) => match parse_card_tail(s3) {
                            Option::Some((c, rest)) => {
                                if rest.len() == 0 {
                                    Option::Some(A2AEnvelopeView::AgentCard(c))
                                } else {
                                    Option::None
                                }
                            },
                            Option::None => Option::None,
                        },
                        Option::None => Option::None,
                    }
                } else if tag == "task"@ {
                    match expect(s2, ","@) {
                        Option::Some(s3) => match parse_task_tail(s3) {
                            Option::Some((t, rest)) => {
                                if rest.len() == 0 {
                                    Option::Some(A2AEnvelopeView::Task(t))
                                } else {
                                    Option::None
                                }
                            },
                            Option::None => Option::None,
                        },
                        Option::None => Option::None,
                    }
                } else if tag == "ack"@ {
                    match expect(s2, ",\"message_id\":"@) {
                        Option::Some(s3) => match parse_jstr(s3) {
                            Option::Some((id, s4)) => match expect(s4, "}"@) {
                                Option::Some(rest) => {
                                    if rest.len() == 0 {
                                        Option::Some(
                                            A2AEnvelopeView::Ack { message_id: id },
                                        )
                                    } else {
                                        Option::None
                                    }
                                },
                                Option::None => Option::None,
                            },
                            Option::None => Option::None,
                        },
                        Option::None => Option::None,
                    }
                } else if tag == "encrypted_task"@ {
                    match expect(s2, ",\"encrypted\":"@) {
                        Option::Some(s3) => match parse_payload(s3) {
                            Option::Some((p, s4)) => match expect(
                                s4,
                                ",\"sender_pubkey\":"@,
                            ) {
                                Option::Some(s5) => match parse_jstr(s5) {
                                    Option::Some((spk, s6)) => match expect(s6, "}"@) {
                                        Option::Some(rest) => {
                                            if rest.len() == 0 {
                                                Option::Some(
                                                    A2AEnvelopeView::EncryptedTask {
                                                        encrypted: p,
                                                        sender_pubkey: spk,
                                                    },
                                                )
                                            } else {
                                                Option::None
                                            }
                                        },
                                        Option::None => Option::None,
                                    },
                                    Option::None => Option::None,
                                },
                                Option::None => Option::None,
                            },
                            Option::None => Option::None,
                        },
                        Option::None => Option::None,
                    }
                } else {
                    Option::None
                }
            },
            Option::None => Option::None,
        },
        Option::None => Option::None,
    }
}

// ---------------------------------------------------------------------------
// Round-trip lemmas: parsing inverts printing
// ---------------------------------------------------------------------------
proof fn lemma_state_rt(st: TaskState, rest: Seq<char>)
    ensures
        parse_state(jstr(state_word(st)) + rest) == Option::Some((st, rest)),
{
    lemma_jstr_rt(state_word(st), rest);
    reveal_strlit("submitted");
    reveal_strlit("working");
    reveal_strlit("input_required");
    reveal_strlit("completed");
    reveal_strlit("failed");
    reveal_strlit("cancelled");
    match st {
        TaskState::Submitted => {
        },
        TaskState::Working => {
            assert("working"@.len() != "submitted"@.len());
        },
        TaskState::InputRequired => {
            assert("input_required"@.len() != "submitted"@.len());
            assert("input_required"@.len() != "working"@.len());
        },
        TaskState::Completed => {
            assert("completed"@ != "submitted"@) by {
                assert("completed"@[0] != "submitted"@[0]);
            }
            assert("completed"@.len() != "working"@.len());
            assert("completed"@.len() != "input_required"@.len());
        },
        TaskState::Failed => {
            assert("failed"@.len() != "submitted"@.len());
            assert("failed"@.len() != "working"@.len());
            assert("failed"@.len() != "input_required"@.len());
            assert("failed"@.len() != "completed"@.len());
        },
        TaskState::Cancelled => {
            assert("cancelled"@ != "submitted"@) by {
                assert("cancelled"@[0] != "submitted"@[0]);
            }
            assert("cancelled"@.len() != "working"@.len());
            assert("cancelled"@.len() != "input_required"@.len());
            assert("cancelled"@ != "completed"@) by {
                assert("cancelled"@[1] != "completed"@[1]);
            }
            assert("cancelled"@.len() != "failed"@.len());
        },
    }
}

proof fn lemma_part_rt(p: PartView, rest: Seq<char>)
    ensures
        parse_part(part_json(p) + rest) == Option::Some((p, rest)),
        part_json(p).len() >= 2,
{
    match p {
        PartView::Text { text } => {
            let s = part_json(p) + rest;
            let lit = "{\"type\":\"text\",\"text\":"@;
            assert(s =~= lit + (jstr(text) + ("}"@ + rest)));
            lemma_expect_rt(lit, jstr(text) + ("}"@ + rest));
            lemma_jstr_rt(text, "}"@ + rest);
            lemma_expect_rt("}"@, rest);
            reveal_strlit("{\"type\":\"text\",\"text\":");
        },
    }
}

proof fn lemma_parts_more_len(ps: Seq<PartView>)
    ensures
        parts_more_json(ps).len() >= ps.len(),
    decreases ps.len(),
{
    if ps.len() > 0 {
        lemma_part_rt(ps[0], Seq::empty());
        lemma_parts_more_len(ps.drop_first());
    }
}

#[verifier::rlimit(100)]
proof fn lemma_parts_rest_rt(ps: Seq<PartView>, acc: Seq<PartView>, rest: Seq<char>, fuel: nat)
    requires
        fuel >= ps.len(),
    ensures
        parse_parts_rest(parts_more_json(ps) + seq![']'] + rest, acc, fuel) == Option::Some(
            (acc + ps, rest),
        ),
    decreases ps.len(),
{
    let s = parts_more_json(ps) + seq![']'] + rest;
    if ps.len() == 0 {
        assert(s =~= seq![']'] + rest);
        assert(s[0] == ']');
        assert(s.skip(1) =~= rest);
        assert(acc + ps =~= acc);
    } else {
        let tail1 = parts_more_json(ps.drop_first()) + seq![']'] + rest;
        assert(s =~= seq![','] + (part_json(ps[0]) + tail1));
        assert(s[0] == ',');
        assert(s.skip(1) =~= part_json(ps[0]) + tail1);
        lemma_part_rt(ps[0], tail1);
        lemma_parts_rest_rt(ps.drop_first(), acc.push(ps[0]), rest, (fuel - 1) as nat);
        assert(acc.push(ps[0]) + ps.drop_first() =~= acc + ps);
    }
}

#[verifier::rlimit(100)]
proof fn lemma_parts_arr_rt(ps: Seq<PartView>, rest: Seq<char>)
    ensures
        parse_parts_arr(parts_arr_json(ps) + rest) == Option::Some((ps, rest)),
{
    let s = parts_arr_json(ps) + rest;
    reveal_strlit("[");
    assert("["@ =~= seq!['[']);
    if ps.len() == 0 {
        assert(s =~= "["@ + (seq![']'] + rest));
        lemma_expect_rt("["@, seq![']'] + rest);
        assert((seq![']'] + rest)[0] == ']');
        assert((seq![']'] + rest).skip(1) =~= rest);
        assert(parse_parts_arr(s) == Option::Some((Seq::<PartView>::empty(), rest)));
        assert(ps =~= Seq::<PartView>::empty());
    } else {
        let tail1 = parts_more_json(ps.drop_first()) + seq![']'] + rest;
        let s1 = part_json(ps[0]) + tail1;
        assert(s =~= "["@ + s1);
        lemma_expect_rt("["@, s1);
        lemma_part_rt(ps[0], tail1);
        assert(s1[0] == part_json(ps[0])[0]);
        reveal_strlit("{\"type\":\"text\",\"text\":");
        match ps[0] {
            PartView::Text { text } => {
                assert(part_json(ps[0])[0] == '{');
            },
        }
        assert(s1[0] != ']');
        lemma_parts_more_len(ps.drop_first());
        lemma_parts_rest_rt(ps.drop_first(), seq![ps[0]], rest, tail1.len());
        assert(seq![ps[0]] + ps.drop_first() =~= ps);
    }
}

#[verifier::rlimit(100)]
proof fn lemma_message_rt(m: MessageView, rest: Seq<char>)
    ensures
        parse_message(message_json(m) + rest) == Option::Some((m, rest)),
        message_json(m).len() >= 1,
        message_json(m)[0] == '{',
{
    let s = message_json(m) + rest;
    let t1 = jstr(m.role) + (",\"parts\":"@ + (parts_arr_json(m.parts) + ("}"@ + rest)));
    assert(s =~= "{\"role\":"@ + t1);
    lemma_expect_rt("{\"role\":"@, t1);
    lemma_jstr_rt(m.role, ",\"parts\":"@ + (parts_arr_json(m.parts) + ("}"@ + rest)));
    lemma_expect_rt(",\"parts\":"@, parts_arr_json(m.parts) + ("}"@ + rest));
    lemma_parts_arr_rt(m.parts, "}"@ + rest);
    lemma_expect_rt("}"@, rest);
    reveal_strlit("{\"role\":");
}

proof fn lemma_strs_more_len(xs: Seq<Seq<char>>)
    ensures
        strs_more_json(xs).len() >= xs.len(),
    decreases xs.len(),
{
    if xs.len() > 0 {
        lemma_jstr_rt(xs[0], Seq::empty());
        lemma_strs_more_len(xs.drop_first());
    }
}

#[verifier::rlimit(100)]
proof fn lemma_strs_rest_rt(xs: Seq<Seq<char>>, acc: Seq<Seq<char>>, rest: Seq<char>, fuel: nat)
    requires
        fuel >= xs.len(),
    ensures
        parse_strs_rest(strs_more_json(xs) + seq![']'] + rest, acc, fuel) == Option::Some(
            (acc + xs, rest),
        ),
    decreases xs.len(),
{
    let s = strs_more_json(xs) + seq![']'] + rest;
    if xs.len() == 0 {
        assert(s =~= seq![']'] + rest);
        assert(s[0] == ']');
        assert(s.skip(1) =~= rest);
        assert(acc + xs =~= acc);
    } else {
        let tail1 = strs_more_json(xs.drop_first()) + seq![']'] + rest;
        assert(s =~= seq![','] + (jstr(xs[0]) + tail1));
        assert(s[0] == ',');
        assert(s.skip(1) =~= jstr(xs[0]) + tail1);
        lemma_jstr_rt(xs[0], tail1);
        lemma_strs_rest_rt(xs.drop_first(), acc.push(xs[0]), rest, (fuel - 1) as nat);
        assert(acc.push(xs[0]) + xs.drop_first() =~= acc + xs);
    }
}

#[verifier::rlimit(100)]
proof fn lemma_str_arr_rt(xs: Seq<Seq<char>>, rest: Seq<char>)
    ensures
        parse_str_arr(str_arr_json(xs) + rest) == Option::Some((xs, rest)),
{
    let s = str_arr_json(xs) + rest;
    reveal_strlit("[");
    assert("["@ =~= seq!['[']);
    if xs.len() == 0 {
        assert(s =~= "["@ + (seq![']'] + rest));
        lemma_expect_rt("["@, seq![']'] + rest);
        assert((seq![']'] + rest)[0] == ']');
        assert((seq![']'] + rest).skip(1) =~= rest);
        assert(xs =~= Seq::<Seq<char>>::empty());
    } else {
        let tail1 = strs_more_json(xs.drop_first()) + seq![']'] + rest;
        let s1 = jstr(xs[0]) + tail1;
        assert(s =~= "["@ + s1);
        lemma_expect_rt("["@, s1);
        lemma_jstr_rt(xs[0], tail1);
        assert(s1[0] == jstr(xs[0])[0]);
        assert(jstr(xs[0])[0] == '"');
        assert(s1[0] != ']');
        lemma_strs_more_len(xs.drop_first());
        lemma_strs_rest_rt(xs.drop_first(), seq![xs[0]], rest, tail1.len());
        assert(seq![xs[0]] + xs.drop_first() =~= xs);
    }
}

#[verifier::rlimit(100)]
#[verifier::spinoff_prover]
proof fn lemma_task_tail_rt(t: TaskView, rest: Seq<char>)
    ensures
        parse_task_tail(task_tail_json(t) + rest) == Option::Some((t, rest)),
{
    let s = task_tail_json(t) + rest;
    let t10 = result_opt_json(t.result) + rest;
    let t9 = message_json(t.message) + t10;
    let t8 = ",\"message\":"@ + t9;
    let t7 = jstr(state_word(t.state)) + t8;
    let t6 = ",\"state\":"@ + t7;
    let t5 = jstr(t.to) + t6;
    let t4 = ",\"to\":"@ + t5;
    let t3 = jstr(t.from) + t4;
    let t2 = ",\"from\":"@ + t3;
    let t1 = jstr(t.id) + t2;
    assert(s =~= "\"id\":"@ + t1);
    lemma_expect_rt("\"id\":"@, t1);
    lemma_jstr_rt(t.id, t2);
    lemma_expect_rt(",\"from\":"@, t3);
    lemma_jstr_rt(t.from, t4);
    lemma_expect_rt(",\"to\":"@, t5);
    lemma_jstr_rt(t.to, t6);
    lemma_expect_rt(",\"state\":"@, t7);
    lemma_state_rt(t.state, t8);
    lemma_expect_rt(",\"message\":"@, t9);
    lemma_message_rt(t.message, t10);
    lemma_task_result_rt(t, rest);
    assert(parse_task_tail(s) == Option::Some((t, rest)));
}

#[verifier::rlimit(100)]
proof fn lemma_task_result_rt(t: TaskView, rest: Seq<char>)
    ensures
        parse_task_result(result_opt_json(t.result) + rest, t.id, t.from, t.to, t.state, t.message)
            == Option::Some((t, rest)),
{
    let t10 = result_opt_json(t.result) + rest;
    reveal_strlit("}");
    match t.result {
        Option::None => {
            assert(t10 =~= "}"@ + rest);
            lemma_expect_rt("}"@, rest);
        },
        Option::Some(m) => {
            let u1 = message_json(m) + ("}"@ + rest);
            assert(t10 =~= ",\"result\":"@ + u1);
            reveal_strlit(",\"result\":");
            assert(t10[0] == ',');
            assert(expect(t10, "}"@) is None) by {
                assert("}"@.len() == 1);
                if expect(t10, "}"@) is Some {
                    assert(t10.take(1)[0] == t10[0]);
                    assert("}"@[0] == '}');
                }
            }
            lemma_expect_rt(",\"result\":"@, u1);
            lemma_message_rt(m, "}"@ + rest);
            lemma_expect_rt("}"@, rest);
        },
    }
}

/// Parsing a printed bare task gives back exactly that task.
pub proof fn lemma_task_round_trip(t: TaskView)
    ensures
        parse_task(task_json(t)) == Option::Some(t),
{
    let s = task_json(t);
    reveal_strlit("{");
    assert("{"@ =~= seq!['{']);
    assert(s =~= "{"@ + task_tail_json(t));
    lemma_expect_rt("{"@, task_tail_json(t));
    lemma_task_tail_rt(t, Seq::empty());
    assert(task_tail_json(t) + Seq::<char>::empty() =~= task_tail_json(t));
}

proof fn lemma_bundle_rt(b: IntroBundleView, rest: Seq<char>)
    ensures
        parse_bundle(bundle_json(b) + rest) == Option::Some((b, rest)),
{
    let s = bundle_json(b) + rest;
    let t1 = jstr(b.agent_pubkey) + (",\"version\":"@ + (jstr(b.version) + ("}"@ + rest)));
    assert(s =~= "{\"agent_pubkey\":"@ + t1);
    lemma_expect_rt("{\"agent_pubkey\":"@, t1);
    lemma_jstr_rt(b.agent_pubkey, ",\"version\":"@ + (jstr(b.version) + ("}"@ + rest)));
    lemma_expect_rt(",\"version\":"@, jstr(b.version) + ("}"@ + rest));
    lemma_jstr_rt(b.version, "}"@ + rest);
    lemma_expect_rt("}"@, rest);
}

#[verifier::rlimit(100)]
#[verifier::spinoff_prover]
proof fn lemma_card_tail_rt(c: AgentCardView, rest: Seq<char>)
    ensures
        parse_card_tail(card_tail_json(c) + rest) == Option::Some((c, rest)),
{
    let s = card_tail_json(c) + rest;
    let t10 = bundle_opt_json(c.intro_bundle) + rest;
    let t9 = jstr(c.public_key) + t10;
    let t8 = ",\"public_key\":"@ + t9;
    let t7 = str_arr_json(c.capabilities) + t8;
    let t6 = ",\"capabilities\":"@ + t7;
    let t5 = jstr(c.version) + t6;
    let t4 = ",\"version\":"@ + t5;
    let t3 = jstr(c.description) + t4;
    let t2 = ",\"description\":"@ + t3;
    let t1 = jstr(c.name) + t2;
    assert(s =~= "\"name\":"@ + t1);
    lemma_expect_rt("\"name\":"@, t1);
    lemma_jstr_rt(c.name, t2);
    lemma_expect_rt(",\"description\":"@, t3);
    lemma_jstr_rt(c.description, t4);
    lemma_expect_rt(",\"version\":"@, t5);
    lemma_jstr_rt(c.version, t6);
    lemma_expect_rt(",\"capabilities\":"@, t7);
    lemma_str_arr_rt(c.capabilities, t8);
    lemma_expect_rt(",\"public_key\":"@, t9);
    lemma_jstr_rt(c.public_key, t10);
    lemma_card_bundle_rt(c, rest);
    assert(parse_card_tail(s) == Option::Some((c, rest)));
}

#[verifier::rlimit(100)]
proof fn lemma_card_bundle_rt(c: AgentCardView, rest: Seq<char>)
    ensures
        parse_card_bundle(
            bundle_opt_json(c.intro_bundle) + rest,
            c.name,
            c.description,
            c.version,
            c.capabilities,
            c.public_key,
        ) == Option::Some((c, rest)),
{
    let t10 = bundle_opt_json(c.intro_bundle) + rest;
    reveal_strlit("}");
    match c.intro_bundle {
        Option::None => {
            assert(t10 =~= "}"@ + rest);
            lemma_expect_rt("}"@, rest);
        },
        Option::Some(b) => {
            let u1 = bundle_json(b) + ("}"@ + rest);
            assert(t10 =~= ",\"intro_bundle\":"@ + u1);
            reveal_strlit(",\"intro_bundle\":");
            assert(t10[0] == ',');
            assert(expect(t10, "}"@) is None) by {
                assert("}"@.len() == 1);
                if expect(t10, "}"@) is Some {
                    assert(t10.take(1)[0] == t10[0]);
                    assert("}"@[0] == '}');
                }
            }
            lemma_expect_rt(",\"intro_bundle\":"@, u1);
            lemma_bundle_rt(b, "}"@ + rest);
            lemma_expect_rt("}"@, rest);
        },
    }
}

proof fn lemma_payload_rt(p: EncryptedPayloadView, rest: Seq<char>)
    ensures
        parse_payload(payload_json(p) + rest) == Option::Some((p, rest)),
{
    let s = payload_json(p) + rest;
    let t1 = jstr(p.nonce) + (",\"ciphertext\":"@ + (jstr(p.ciphertext) + ("}"@ + rest)));
    assert(s =~= "{\"nonce\":"@ + t1);
    lemma_expect_rt("{\"nonce\":"@, t1);
    lemma_jstr_rt(p.nonce, ",\"ciphertext\":"@ + (jstr(p.ciphertext) + ("}"@ + rest)));
    lemma_expect_rt(",\"ciphertext\":"@, jstr(p.ciphertext) + ("}"@ + rest));
    lemma_jstr_rt(p.ciphertext, "}"@ + rest);
    lemma_expect_rt("}"@, rest);
}

/// Parsing a printed envelope gives back exactly that envelope: the wire
/// format round-trips for every envelope, in particular an agent card
/// without an intro bundle decodes with no bundle present.
#[verifier::rlimit(100)]
#[verifier::spinoff_prover]
pub proof fn lemma_envelope_round_trip(e: A2AEnvelopeView)
    ensures
        parse_envelope(envelope_json(e)) == Option::Some(e),
{
    let s = envelope_json(e);
    reveal_strlit("agent_card");
    reveal_strlit("task");
    reveal_strlit("ack");
    reveal_strlit("encrypted_task");
    reveal_strlit(",");
    match e {
        A2AEnvelopeView::AgentCard(c) => {
            let t1 = jstr("agent_card"@) + (","@ + card_tail_json(c));
            assert(s =~= "{\"type\":"@ + t1);
            lemma_expect_rt("{\"type\":"@, t1);
            lemma_jstr_rt("agent_card"@, ","@ + card_tail_json(c));
            lemma_expect_rt(","@, card_tail_json(c));
            lemma_card_tail_rt(c, Seq::empty());
            assert(card_tail_json(c) + Seq::<char>::empty() =~= card_tail_json(c));
        },
        A2AEnvelopeView::Task(t) => {
            let t1 = jstr("task"@) + (","@ + task_tail_json(t));
            assert(s =~= "{\"type\":"@ + t1);
            lemma_expect_rt("{\"type\":"@, t1);
            lemma_jstr_rt("task"@, ","@ + task_tail_json(t));
            assert("task"@ != "agent_card"@) by {
                assert("task"@.len() != "agent_card"@.len());
            }
            lemma_expect_rt(","@, task_tail_json(t));
            lemma_task_tail_rt(t, Seq::empty());
            assert(task_tail_json(t) + Seq::<char>::empty() =~= task_tail_json(t));
        },
        A2AEnvelopeView::Ack { message_id } => {
            let t1 = jstr("ack"@) + (",\"message_id\":"@ + (jstr(message_id) + "}"@));
            assert(s =~= "{\"type\":"@ + t1);
            lemma_expect_rt("{\"type\":"@, t1);
            lemma_jstr_rt("ack"@, ",\"message_id\":"@ + (jstr(message_id) + "}"@));
            assert("ack"@ != "agent_card"@) by {
                assert("ack"@.len() != "agent_card"@.len());
            }
            assert("ack"@ != "task"@) by {
                assert("ack"@.len() != "task"@.len());
            }
            lemma_expect_rt(",\"message_id\":"@, jstr(message_id) + "}"@);
            lemma_jstr_rt(message_id, "}"@);
            lemma_expect_rt("}"@, Seq::empty());
            assert("}"@ + Seq::<char>::empty() =~= "}"@);
            reveal_strlit("}");
        },
        A2AEnvelopeView::EncryptedTask { encrypted, sender_pubkey } => {
            let u2 = jstr(sender_pubkey) + "}"@;
            let u1 = payload_json(encrypted) + (",\"sender_pubkey\":"@ + u2);
            let t1 = jstr("encrypted_task"@) + (",\"encrypted\":"@ + u1);
            assert(s =~= "{\"type\":"@ + t1);
            lemma_expect_rt("{\"type\":"@, t1);
            lemma_jstr_rt("encrypted_task"@, ",\"encrypted\":"@ + u1);
            assert("encrypted_task"@ != "agent_card"@) by {
                assert("encrypted_task"@.len() != "agent_card"@.len());
            }
            assert("encrypted_task"@ != "task"@) by {
                assert("encrypted_task"@.len() != "task"@.len());
            }
            assert("encrypted_task"@ != "ack"@) by {
                assert("encrypted_task"@.len() != "ack"@.len());
            }
            lemma_expect_rt(",\"encrypted\":"@, u1);
            lemma_payload_rt(encrypted, ",\"sender_pubkey\":"@ + u2);
            lemma_expect_rt(",\"sender_pubkey\":"@, u2);
            lemma_jstr_rt(sender_pubkey, "}"@);
            lemma_expect_rt("}"@, Seq::empty());
            assert("}"@ + Seq::<char>::empty() =~= "}"@);
            reveal_strlit("}");
        },
    }
}

/// Backward compatibility of the card encoding: a card without an intro
/// bundle is written without the field, and decoding such an envelope gives
/// back the card with no bundle present.
pub proof fn lemma_card_without_bundle_round_trip(c: AgentCardView)
    requires
        c.intro_bundle is None,
    ensures
        parse_envelope(envelope_json(A2AEnvelopeView::AgentCard(c))) == Option::Some(
            A2AEnvelopeView::AgentCard(c),
        ),
        parse_envelope(envelope_json(A2AEnvelopeView::AgentCard(c)))->Some_0->AgentCard_0
            .intro_bundle is None,
{
    lemma_envelope_round_trip(A2AEnvelopeView::AgentCard(c));
}

// ---------------------------------------------------------------------------
// Encoder
// ---------------------------------------------------------------------------
proof fn lemma_parts_more_push(ps: Seq<PartView>, p: PartView)
    ensures
        parts_more_json(ps.push(p)) == parts_more_json(ps) + (seq![','] + part_json(p)),
    decreases ps.len(),
{
    if ps.len() == 0 {
        assert(ps.push(p)[0] == p);
        assert(ps.push(p).drop_first() =~= Seq::<PartView>::empty());
        assert(parts_more_json(Seq::<PartView>::empty()) == Seq::<char>::empty());
        assert(parts_more_json(ps.push(p)) =~= parts_more_json(ps) + (seq![','] + part_json(p)));
    } else {
        assert(ps.push(p).drop_first() =~= ps.drop_first().push(p));
        assert(ps.push(p)[0] == ps[0]);
        lemma_parts_more_push(ps.drop_first(), p);
        assert(parts_more_json(ps.push(p)) =~= parts_more_json(ps) + (seq![','] + part_json(p)));
    }
}

proof fn lemma_strs_more_push(xs: Seq<Seq<char>>, x: Seq<char>)
    ensures
        strs_more_json(xs.push(x)) == strs_more_json(xs) + (seq![','] + jstr(x)),
    decreases xs.len(),
{
    if xs.len() == 0 {
        assert(xs.push(x)[0] == x);
        assert(xs.push(x).drop_first() =~= Seq::<Seq<char>>::empty());
        assert(strs_more_json(Seq::<Seq<char>>::empty()) == Seq::<char>::empty());
        assert(strs_more_json(xs.push(x)) =~= strs_more_json(xs) + (seq![','] + jstr(x)));
    } else {
        assert(xs.push(x).drop_first() =~= xs.drop_first().push(x));
        assert(xs.push(x)[0] == xs[0]);
        lemma_strs_more_push(xs.drop_first(), x);
        assert(strs_more_json(xs.push(x)) =~= strs_more_json(xs) + (seq![','] + jstr(x)));
    }
}

fn write_state(out: &mut String, st: &TaskState)
    ensures
        final(out)@ == old(out)@ + jstr(state_word(*st)),
{
    match st {
        TaskState::Submitted => write_jstr(out, "submitted"),
        TaskState::Working => write_jstr(out, "working"),
        TaskState::InputRequired => write_jstr(out, "input_required"),
        TaskState::Completed => write_jstr(out, "completed"),
        TaskState::Failed => write_jstr(out, "failed"),
        TaskState::Cancelled => write_jstr(out, "cancelled"),
    }
}

fn write_part(out: &mut String, p: &Part)
    ensures
        final(out)@ == old(out)@ + part_json(p@),
{
    match p {
        Part::Text { text } => {
            out.append("{\"type\":\"text\",\"text\":");
            write_jstr(out, text.as_str());
            out.append("}");
            assert(final(out)@ =~= old(out)@ + part_json(p@));
        },
    }
}

fn write_parts_arr(out: &mut String, parts: &Vec<Part>)
    ensures
        final(out)@ == old(out)@ + parts_arr_json(parts.deep_view()),
{
    push_char(out, '[');
    let n = parts.len();
    let ghost all = parts.deep_view();
    proof {
        assert(all.len() == n);
        assert(all.take(0) =~= Seq::<PartView>::empty());
        assert(out@ =~= old(out)@ + seq!['['] + parts_json(all.take(0)));
    }
    let mut i: usize = 0;
    while i < n
        invariant
            i <= n,
            n == parts@.len(),
            all == parts.deep_view(),
            all.len() == n,
            out@ == old(out)@ + seq!['['] + parts_json(all.take(i as int)),
        decreases n - i,
    {
        let ghost pre = out@;
        if i > 0 {
            push_char(out, ',');
        }
        write_part(out, &parts[i]);
        proof {
            assert(parts[i as int]@ == all[i as int]);
            assert(all.take(i + 1 as int) =~= all.take(i as int).push(all[i as int]));
            if i == 0 {
                assert(all.take(1 as int) =~= seq![all[0]]);
                assert(parts_json(all.take(1 as int)) =~= part_json(all[0]) + parts_more_json(
                    Seq::<PartView>::empty(),
                ));
                assert(out@ =~= old(out)@ + seq!['['] + parts_json(all.take(i + 1 as int)));
            } else {
                let tk = all.take(i as int);
                lemma_parts_more_push(tk.drop_first(), all[i as int]);
                assert(tk.push(all[i as int]).drop_first() =~= tk.drop_first().push(
                    all[i as int],
                ));
                assert(tk.push(all[i as int])[0] == tk[0]);
                assert(parts_json(all.take(i + 1 as int)) =~= parts_json(tk) + (seq![',']
                    + part_json(all[i as int])));
                assert(out@ =~= old(out)@ + seq!['['] + parts_json(all.take(i + 1 as int)));
            }
        }
        i = i + 1;
    }
    push_char(out, ']');
    proof {
        assert(all.take(n as int) =~= all);
        assert(out@ =~= old(out)@ + parts_arr_json(all));
    }
}

fn write_str_arr(out: &mut String, xs: &Vec<String>)
    ensures
        final(out)@ == old(out)@ + str_arr_json(xs.deep_view()),
{
    push_char(out, '[');
    let n = xs.len();
    let ghost all = xs.deep_view();
    proof {
        assert(all.len() == n);
        assert(all.take(0) =~= Seq::<Seq<char>>::empty());
        assert(out@ =~= old(out)@ + seq!['['] + strs_json(all.take(0)));
    }
    let mut i: usize = 0;
    while i < n
        invariant
            i <= n,
            n == xs@.len(),
            all == xs.deep_view(),
            all.len() == n,
            out@ == old(out)@ + seq!['['] + strs_json(all.take(i as int)),
        decreases n - i,
    {
        if i > 0 {
            push_char(out, ',');
        }
        write_jstr(out, xs[i].as_str());
        proof {
            assert(xs[i as int]@ == all[i as int]);
            assert(all.take(i + 1 as int) =~= all.take(i as int).push(all[i as int]));
            if i == 0 {
                assert(all.take(1 as int) =~= seq![all[0]]);
                assert(strs_json(all.take(1 as int)) =~= jstr(all[0]) + strs_more_json(
                    Seq::<Seq<char>>::empty(),
                ));
                assert(out@ =~= old(out)@ + seq!['['] + strs_json(all.take(i + 1 as int)));
            } else {
                let tk = all.take(i as int);
                lemma_strs_more_push(tk.drop_first(), all[i as int]);
                assert(tk.push(all[i as int]).drop_first() =~= tk.drop_first().push(
                    all[i as int],
                ));
                assert(tk.push(all[i as int])[0] == tk[0]);
                assert(strs_json(all.take(i + 1 as int)) =~= strs_json(tk) + (seq![','] + jstr(
                    all[i as int],
                )));
                assert(out@ =~= old(out)@ + seq!['['] + strs_json(all.take(i + 1 as int)));
            }
        }
        i = i + 1;
    }
    push_char(out, ']');
    proof {
        assert(all.take(n as int) =~= all);
        assert(out@ =~= old(out)@ + str_arr_json(all));
    }
}

fn write_message(out: &mut String, m: &Message)
    ensures
        final(out)@ == old(out)@ + message_json(m@),
{
    out.append("{\"role\":");
    write_jstr(out, m.role.as_str());
    out.append(",\"parts\":");
    write_parts_arr(out, &m.parts);
    out.append("}");
    assert(final(out)@ =~= old(out)@ + message_json(m@));
}

#[verifier::rlimit(100)]
#[verifier::spinoff_prover]
fn write_task_tail(out: &mut String, t: &Task)
    ensures
        final(out)@ == old(out)@ + task_tail_json(t@),
{
    out.append("\"id\":");
    write_jstr(out, t.id.as_str());
    out.append(",\"from\":");
    write_jstr(out, t.from.as_str());
    out.append(",\"to\":");
    write_jstr(out, t.to.as_str());
    out.append(",\"state\":");
    write_state(out, &t.state);
    out.append(",\"message\":");
    write_message(out, &t.message);
    let ghost head = "\"id\":"@ + jstr(t@.id) + ",\"from\":"@ + jstr(t@.from) + ",\"to\":"@
        + jstr(t@.to) + ",\"state\":"@ + jstr(state_word(t@.state)) + ",\"message\":"@
        + message_json(t@.message);
    proof {
        assert(out@ =~= old(out)@ + head);
    }
    match &t.result {
        None => {
            out.append("}");
        },
        Some(m) => {
            out.append(",\"result\":");
            write_message(out, m);
            out.append("}");
        },
    }
    proof {
        assert(out@ =~= (old(out)@ + head) + result_opt_json(t@.result));
        assert(out@ =~= old(out)@ + task_tail_json(t@));
    }
}

fn write_bundle(out: &mut String, b: &IntroBundle)
    ensures
        final(out)@ == old(out)@ + bundle_json(b@),
{
    out.append("{\"agent_pubkey\":");
    write_jstr(out, b.agent_pubkey.as_str());
    out.append(",\"version\":");
    write_jstr(out, b.version.as_str());
    out.append("}");
    assert(final(out)@ =~= old(out)@ + bundle_json(b@));
}

#[verifier::rlimit(100)]
#[verifier::spinoff_prover]
fn write_card_tail(out: &mut String, c: &AgentCard)
    ensures
        final(out)@ == old(out)@ + card_tail_json(c@),
{
    out.append("\"name\":");
    write_jstr(out, c.name.as_str());
    out.append(",\"description\":");
    write_jstr(out, c.description.as_str());
    out.append(",\"version\":");
    write_jstr(out, c.version.as_str());
    out.append(",\"capabilities\":");
    write_str_arr(out, &c.capabilities);
    out.append(",\"public_key\":");
    write_jstr(out, c.public_key.as_str());
    let ghost head = "\"name\":"@ + jstr(c@.name) + ",\"description\":"@ + jstr(c@.description)
        + ",\"version\":"@ + jstr(c@.version) + ",\"capabilities\":"@ + str_arr_json(
        c@.capabilities,
    ) + ",\"public_key\":"@ + jstr(c@.public_key);
    proof {
        assert(out@ =~= old(out)@ + head);
    }
    match &c.intro_bundle {
        None => {
            out.append("}");
        },
        Some(b) => {
            out.append(",\"intro_bundle\":");
            write_bundle(out, b);
            out.append("}");
        },
    }
    proof {
        assert(out@ =~= (old(out)@ + head) + bundle_opt_json(c@.intro_bundle));
        assert(out@ =~= old(out)@ + card_tail_json(c@));
    }
}

fn write_payload(out: &mut String, p: &EncryptedPayload)
    ensures
        final(out)@ == old(out)@ + payload_json(p@),
{
    out.append("{\"nonce\":");
    write_jstr(out, p.nonce.as_str());
    out.append(",\"ciphertext\":");
    write_jstr(out, p.ciphertext.as_str());
    out.append("}");
    assert(final(out)@ =~= old(out)@ + payload_json(p@));
}

/// The canonical JSON text of a bare task, as sealed inside an encrypted
/// envelope.
pub fn encode_task(t: &Task) -> (r: String)
    ensures
        r@ == task_json(t@),
{
    let mut out = String::new();
    push_char(&mut out, '{');
    write_task_tail(&mut out, t);
    proof {
        assert(out@ =~= task_json(t@));
    }
    out
}

/// The canonical JSON text of a wire envelope.
pub fn encode_envelope(e: &A2AEnvelope) -> (r: String)
    ensures
        r@ == envelope_json(e@),
{
    let mut out = String::new();
    out.append("{\"type\":");
    match e {
        A2AEnvelope::AgentCard(c) => {
            write_jstr(&mut out, "agent_card");
            out.append(",");
            write_card_tail(&mut out, c);
        },
        A2AEnvelope::Task(t) => {
            write_jstr(&mut out, "task");
            out.append(",");
            write_task_tail(&mut out, t);
        },
        A2AEnvelope::Ack { message_id } => {
            write_jstr(&mut out, "ack");
            out.append(",\"message_id\":");
            write_jstr(&mut out, message_id.as_str());
            out.append("}");
        },
        A2AEnvelope::EncryptedTask { encrypted, sender_pubkey } => {
            write_jstr(&mut out, "encrypted_task");
            out.append(",\"encrypted\":");
            write_payload(&mut out, encrypted);
            out.append(",\"sender_pubkey\":");
            write_jstr(&mut out, sender_pubkey.as_str());
            out.append("}");
        },
    }
    proof {
        assert(out@ =~= envelope_json(e@));
    }
    out
}

// ---------------------------------------------------------------------------
// Decoder
// ---------------------------------------------------------------------------
fn scan_state(v: &Vec<char>, pos: usize) -> (r: Option<(TaskState, usize)>)
    requires
        pos <= v@.len(),
    ensures
        match r {
            Option::Some(p) => {
                &&& pos <= p.1 <= v@.len()
                &&& parse_state(v@.skip(pos as int)) == Option::Some((p.0, v@.skip(p.1 as int)))
            },
            Option::None => parse_state(v@.skip(pos as int)) is None,
        },
{
    match scan_jstr(v, pos) {
        None => None,
        Some((w, p)) => {
            if str_eq(w.as_str(), "submitted") {
                Some((TaskState::Submitted, p))
            } else if str_eq(w.as_str(), "working") {
                Some((TaskState::Working, p))
            } else if str_eq(w.as_str(), "input_required") {
                Some((TaskState::InputRequired, p))
            } else if str_eq(w.as_str(), "completed") {
                Some((TaskState::Completed, p))
            } else if str_eq(w.as_str(), "failed") {
                Some((TaskState::Failed, p))
            } else if str_eq(w.as_str(), "cancelled") {
                Some((TaskState::Cancelled, p))
            } else {
                None
            }
        },
    }
}

fn scan_part(v: &Vec<char>, pos: usize) -> (r: Option<(Part, usize)>)
    requires
        pos <= v@.len(),
    ensures
        match r {
            Option::Some(p) => {
                &&& pos <= p.1 <= v@.len()
                &&& parse_part(v@.skip(pos as int)) == Option::Some(
                    (p.0@, v@.skip(p.1 as int)),
                )
            },
            Option::None => parse_part(v@.skip(pos as int)) is None,
        },
{
    match scan_lit(v, pos, "{\"type\":\"text\",\"text\":") {
        None => None,
        Some(p1) => match scan_jstr(v, p1) {
            None => None,
            Some((t, p2)) => match scan_lit(v, p2, "}") {
                None => None,
                Some(p3) => Some((Part::Text { text: t }, p3)),
            },
        },
    }
}

fn scan_parts_rest(v: &Vec<char>, pos: usize, acc: Vec<Part>, fuel: usize) -> (r: Option<
    (Vec<Part>, usize),
>)
    requires
        pos <= v@.len(),
    ensures
        match r {
            Option::Some(p) => {
                &&& p.1 <= v@.len()
                &&& parse_parts_rest(v@.skip(pos as int), acc.deep_view(), fuel as nat)
                    == Option::Some((p.0.deep_view(), v@.skip(p.1 as int)))
            },
            Option::None => parse_parts_rest(v@.skip(pos as int), acc.deep_view(), fuel as nat)
                is None,
        },
    decreases fuel,
{
    let n = v.len();
    if pos >= n {
        proof {
            assert(v@.skip(pos as int).len() == 0);
        }
        return None;
    }
    let c = v[pos];
    proof {
        assert(v@.skip(pos as int)[0] == v@[pos as int]);
    }
    if c == ']' {
        proof {
            assert(v@.skip(pos as int).skip(1) =~= v@.skip(pos as int + 1));
        }
        Some((acc, pos + 1))
    } else if c == ',' {
        proof {
            assert(v@.skip(pos as int).skip(1) =~= v@.skip(pos as int + 1));
        }
        match scan_part(v, pos + 1) {
            None => None,
            Some((p, p2)) => {
                if fuel > 0 {
                    let ghost old_acc = acc.deep_view();
                    let mut acc2 = acc;
                    let ghost pv = p@;
                    acc2.push(p);
                    proof {
                        assert(acc2.deep_view() =~= old_acc.push(pv)) by {
                            assert(forall|j: int|
                                0 <= j < acc2@.len() ==> acc2.deep_view()[j]
                                    == #[trigger] acc2@[j]@);
                        }
                    }
                    scan_parts_rest(v, p2, acc2, fuel - 1)
                } else {
                    None
                }
            },
        }
    } else {
        None
    }
}

fn scan_parts_arr(v: &Vec<char>, pos: usize) -> (r: Option<(Vec<Part>, usize)>)
    requires
        pos <= v@.len(),
    ensures
        match r {
            Option::Some(p) => {
                &&& p.1 <= v@.len()
                &&& parse_parts_arr(v@.skip(pos as int)) == Option::Some(
                    (p.0.deep_view(), v@.skip(p.1 as int)),
                )
            },
            Option::None => parse_parts_arr(v@.skip(pos as int)) is None,
        },
{
    let n = v.len();
    match scan_lit(v, pos, "[") {
        None => None,
        Some(p1) => {
            if p1 < n && v[p1] == ']' {
                let empty_parts: Vec<Part> = Vec::new();
                proof {
                    assert(v@.skip(p1 as int)[0] == v@[p1 as int]);
                    assert(v@.skip(p1 as int).skip(1) =~= v@.skip(p1 as int + 1));
                    assert(empty_parts.deep_view() =~= Seq::<PartView>::empty());
                }
                Some((empty_parts, p1 + 1))
            } else {
                proof {
                    if p1 < v@.len() {
                        assert(v@.skip(p1 as int)[0] == v@[p1 as int]);
                    } else {
                        assert(v@.skip(p1 as int).len() == 0);
                    }
                }
                match scan_part(v, p1) {
                    None => None,
                    Some((p, p2)) => {
                        let mut acc: Vec<Part> = Vec::new();
                        let ghost pv = p@;
                        acc.push(p);
                        proof {
                            assert(acc.deep_view() =~= seq![pv]) by {
                                assert(acc.deep_view().len() == 1);
                                assert(acc.deep_view()[0] == acc@[0]@);
                            }
                            assert((n - p2) as nat == v@.skip(p2 as int).len());
                        }
                        scan_parts_rest(v, p2, acc, n - p2)
                    },
                }
            }
        },
    }
}

fn scan_message(v: &Vec<char>, pos: usize) -> (r: Option<(Message, usize)>)
    requires
        pos <= v@.len(),
    ensures
        match r {
            Option::Some(p) => {
                &&& p.1 <= v@.len()
                &&& parse_message(v@.skip(pos as int)) == Option::Some(
                    (p.0@, v@.skip(p.1 as int)),
                )
            },
            Option::None => parse_message(v@.skip(pos as int)) is None,
        },
{
    match scan_lit(v, pos, "{\"role\":") {
        None => None,
        Some(p1) => match scan_jstr(v, p1) {
            None => None,
            Some((role, p2)) => match scan_lit(v, p2, ",\"parts\":") {
                None => None,
                Some(p3) => match scan_parts_arr(v, p3) {
                    None => None,
                    Some((parts, p4)) => match scan_lit(v, p4, "}") {
                        None => None,
                        Some(p5) => Some((Message { role, parts }, p5)),
                    },
                },
            },
        },
    }
}

fn scan_strs_rest(v: &Vec<char>, pos: usize, acc: Vec<String>, fuel: usize) -> (r: Option<
    (Vec<String>, usize),
>)
    requires
        pos <= v@.len(),
    ensures
        match r {
            Option::Some(p) => {
                &&& p.1 <= v@.len()
                &&& parse_strs_rest(v@.skip(pos as int), acc.deep_view(), fuel as nat)
                    == Option::Some((p.0.deep_view(), v@.skip(p.1 as int)))
            },
            Option::None => parse_strs_rest(v@.skip(pos as int), acc.deep_view(), fuel as nat)
                is None,
        },
    decreases fuel,
{
    let n = v.len();
    if pos >= n {
        proof {
            assert(v@.skip(pos as int).len() == 0);
        }
        return None;
    }
    let c = v[pos];
    proof {
        assert(v@.skip(pos as int)[0] == v@[pos as int]);
    }
    if c == ']' {
        proof {
            assert(v@.skip(pos as int).skip(1) =~= v@.skip(pos as int + 1));
        }
        Some((acc, pos + 1))
    } else if c == ',' {
        proof {
            assert(v@.skip(pos as int).skip(1) =~= v@.skip(pos as int + 1));
        }
        match scan_jstr(v, pos + 1) {
            None => None,
            Some((x, p2)) => {
                if fuel > 0 {
                    let ghost old_acc = acc.deep_view();
                    let mut acc2 = acc;
                    let ghost xv = x@;
                    acc2.push(x);
                    proof {
                        assert(acc2.deep_view() =~= old_acc.push(xv)) by {
                            assert(forall|j: int|
                                0 <= j < acc2@.len() ==> acc2.deep_view()[j]
                                    == #[trigger] acc2@[j]@);
                        }
                    }
                    scan_strs_rest(v, p2, acc2, fuel - 1)
                } else {
                    None
                }
            },
        }
    } else {
        None
    }
}

fn scan_str_arr(v: &Vec<char>, pos: usize) -> (r: Option<(Vec<String>, usize)>)
    requires
        pos <= v@.len(),
    ensures
        match r {
            Option::Some(p) => {
                &&& p.1 <= v@.len()
                &&& parse_str_arr(v@.skip(pos as int)) == Option::Some(
                    (p.0.deep_view(), v@.skip(p.1 as int)),
                )
            },
            Option::None => parse_str_arr(v@.skip(pos as int)) is None,
        },
{
    let n = v.len();
    match scan_lit(v, pos, "[") {
        None => None,
        Some(p1) => {
            if p1 < n && v[p1] == ']' {
                let empty_strs: Vec<String> = Vec::new();
                proof {
                    assert(v@.skip(p1 as int)[0] == v@[p1 as int]);
                    assert(v@.skip(p1 as int).skip(1) =~= v@.skip(p1 as int + 1));
                    assert(empty_strs.deep_view() =~= Seq::<Seq<char>>::empty());
                }
                Some((empty_strs, p1 + 1))
            } else {
                proof {
                    if p1 < v@.len() {
                        assert(v@.skip(p1 as int)[0] == v@[p1 as int]);
                    } else {
                        assert(v@.skip(p1 as int).len() == 0);
                    }
                }
                match scan_jstr(v, p1) {
                    None => None,
                    Some((x, p2)) => {
                        let mut acc: Vec<String> = Vec::new();
                        let ghost xv = x@;
                        acc.push(x);
                        proof {
                            assert(acc.deep_view() =~= seq![xv]) by {
                                assert(acc.deep_view().len() == 1);
                                assert(acc.deep_view()[0] == acc@[0]@);
                            }
                            assert((n - p2) as nat == v@.skip(p2 as int).len());
                        }
                        scan_strs_rest(v, p2, acc, n - p2)
                    },
                }
            }
        },
    }
}

fn scan_task_tail(v: &Vec<char>, pos: usize) -> (r: Option<(Task, usize)>)
    requires
        pos <= v@.len(),
    ensures
        match r {
            Option::Some(p) => {
                &&& p.1 <= v@.len()
                &&& parse_task_tail(v@.skip(pos as int)) == Option::Some(
                    (p.0@, v@.skip(p.1 as int)),
                )
            },
            Option::None => parse_task_tail(v@.skip(pos as int)) is None,
        },
{
    match scan_lit(v, pos, "\"id\":") {
        None => None,
        Some(p1) => match scan_jstr(v, p1) {
            None => None,
            Some((id, p2)) => match scan_lit(v, p2, ",\"from\":") {
                None => None,
                Some(p3) => match scan_jstr(v, p3) {
                    None => None,
                    Some((from, p4)) => match scan_lit(v, p4, ",\"to\":") {
                        None => None,
                        Some(p5) => match scan_jstr(v, p5) {
                            None => None,
                            Some((to, p6)) => match scan_lit(v, p6, ",\"state\":") {
                                None => None,
                                Some(p7) => match scan_state(v, p7) {
                                    None => None,
                                    Some((st, p8)) => match scan_lit(v, p8, ",\"message\":") {
                                        None => None,
                                        Some(p9) => match scan_message(v, p9) {
                                            None => None,
                                            Some((msg, p10)) => scan_task_result(
                                                v,
                                                p10,
                                                id,
                                                from,
                                                to,
                                                st,
                                                msg,
                                            ),
                                        },
                                    },
                                },
                            },
                        },
                    },
                },
            },
        },
    }
}

fn scan_task_result(
    v: &Vec<char>,
    pos: usize,
    id: String,
    from: String,
    to: String,
    st: TaskState,
    msg: Message,
) -> (r: Option<(Task, usize)>)
    requires
        pos <= v@.len(),
    ensures
        match r {
            Option::Some(p) => {
                &&& p.1 <= v@.len()
                &&& parse_task_result(v@.skip(pos as int), id@, from@, to@, st, msg@)
                    == Option::Some((p.0@, v@.skip(p.1 as int)))
            },
            Option::None => parse_task_result(v@.skip(pos as int), id@, from@, to@, st, msg@)
                is None,
        },
{
    match scan_lit(v, pos, "}") {
        Some(p1) => Some(
            (Task { id, from, to, state: st, message: msg, result: None }, p1),
        ),
        None => match scan_lit(v, pos, ",\"result\":") {
            None => None,
            Some(p1) => match scan_message(v, p1) {
                None => None,
                Some((rm, p2)) => match scan_lit(v, p2, "}") {
                    None => None,
                    Some(p3) => Some(
                        (
                            Task {
                                id,
                                from,
                                to,
                                state: st,
                                message: msg,
                                result: Some(rm),
                            },
                            p3,
                        ),
                    ),
                },
            },
        },
    }
}

fn scan_bundle(v: &Vec<char>, pos: usize) -> (r: Option<(IntroBundle, usize)>)
    requires
        pos <= v@.len(),
    ensures
        match r {
            Option::Some(p) => {
                &&& p.1 <= v@.len()
                &&& parse_bundle(v@.skip(pos as int)) == Option::Some(
                    (p.0@, v@.skip(p.1 as int)),
                )
            },
            Option::None => parse_bundle(v@.skip(pos as int)) is None,
        },
{
    match scan_lit(v, pos, "{\"agent_pubkey\":") {
        None => None,
        Some(p1) => match scan_jstr(v, p1) {
            None => None,
            Some((pk, p2)) => match scan_lit(v, p2, ",\"version\":") {
                None => None,
                Some(p3) => match scan_jstr(v, p3) {
                    None => None,
                    Some((ver, p4)) => match scan_lit(v, p4, "}") {
                        None => None,
                        Some(p5) => Some(
                            (IntroBundle { agent_pubkey: pk, version: ver }, p5),
                        ),
                    },
                },
            },
        },
    }
}

fn scan_card_tail(v: &Vec<char>, pos: usize) -> (r: Option<(AgentCard, usize)>)
    requires
        pos <= v@.len(),
    ensures
        match r {
            Option::Some(p) => {
                &&& p.1 <= v@.len()
                &&& parse_card_tail(v@.skip(pos as int)) == Option::Some(
                    (p.0@, v@.skip(p.1 as int)),
                )
            },
            Option::None => parse_card_tail(v@.skip(pos as int)) is None,
        },
{
    match scan_lit(v, pos, "\"name\":") {
        None => None,
        Some(p1) => match scan_jstr(v, p1) {
            None => None,
            Some((name, p2)) => match scan_lit(v, p2, ",\"description\":") {
                None => None,
                Some(p3) => match scan_jstr(v, p3) {
                    None => None,
                    Some((desc, p4)) => match scan_lit(v, p4, ",\"version\":") {
                        None => None,
                        Some(p5) => match scan_jstr(v, p5) {
                            None => None,
                            Some((ver, p6)) => match scan_lit(v, p6, ",\"capabilities\":") {
                                None => None,
                                Some(p7) => match scan_str_arr(v, p7) {
                                    None => None,
                                    Some((caps, p8)) => match scan_lit(
                                        v,
                                        p8,
                                        ",\"public_key\":",
                                    ) {
                                        None => None,
                                        Some(p9) => match scan_jstr(v, p9) {
                                            None => None,
                                            Some((pk, p10)) => scan_card_bundle(
                                                v,
                                                p10,
                                                name,
                                                desc,
                                                ver,
                                                caps,
                                                pk,
                                            ),
                                        },
                                    },
                                },
                            },
                        },
                    },
                },
            },
        },
    }
}

fn scan_card_bundle(
    v: &Vec<char>,
    pos: usize,
    name: String,
    desc: String,
    ver: String,
    caps: Vec<String>,
    pk: String,
) -> (r: Option<(AgentCard, usize)>)
    requires
        pos <= v@.len(),
    ensures
        match r {
            Option::Some(p) => {
                &&& p.1 <= v@.len()
                &&& parse_card_bundle(
                    v@.skip(pos as int),
                    name@,
                    desc@,
                    ver@,
                    caps.deep_view(),
                    pk@,
                ) == Option::Some((p.0@, v@.skip(p.1 as int)))
            },
            Option::None => parse_card_bundle(
                v@.skip(pos as int),
                name@,
                desc@,
                ver@,
                caps.deep_view(),
                pk@,
            ) is None,
        },
{
    match scan_lit(v, pos, "}") {
        Some(p1) => Some(
            (
                AgentCard {
                    name,
                    description: desc,
                    version: ver,
                    capabilities: caps,
                    public_key: pk,
                    intro_bundle: None,
                },
                p1,
            ),
        ),
        None => match scan_lit(v, pos, ",\"intro_bundle\":") {
            None => None,
            Some(p1) => match scan_bundle(v, p1) {
                None => None,
                Some((b, p2)) => match scan_lit(v, p2, "}") {
                    None => None,
                    Some(p3) => Some(
                        (
                            AgentCard {
                                name,
                                description: desc,
                                version: ver,
                                capabilities: caps,
                                public_key: pk,
                                intro_bundle: Some(b),
                            },
                            p3,
                        ),
                    ),
                },
            },
        },
    }
}

fn scan_payload(v: &Vec<char>, pos: usize) -> (r: Option<(EncryptedPayload, usize)>)
    requires
        pos <= v@.len(),
    ensures
        match r {
            Option::Some(p) => {
                &&& p.1 <= v@.len()
                &&& parse_payload(v@.skip(pos as int)) == Option::Some(
                    (p.0@, v@.skip(p.1 as int)),
                )
            },
            Option::None => parse_payload(v@.skip(pos as int)) is None,
        },
{
    match scan_lit(v, pos, "{\"nonce\":") {
        None => None,
        Some(p1) => match scan_jstr(v, p1) {
            None => None,
            Some((nonce, p2)) => match scan_lit(v, p2, ",\"ciphertext\":") {
                None => None,
                Some(p3) => match scan_jstr(v, p3) {
                    None => None,
                    Some((ct, p4)) => match scan_lit(v, p4, "}") {
                        None => None,
                        Some(p5) => Some(
                            (EncryptedPayload { nonce, ciphertext: ct }, p5),
                        ),
                    },
                },
            },
        },
    }
}

/// Decode a wire envelope from its JSON text.  Returns `None` for malformed
/// input and for unknown `type` discriminators, which receivers ignore.
pub fn decode_envelope(s: &str) -> (r: Option<A2AEnvelope>)
    ensures
        match r {
            Option::Some(e) => parse_envelope(s@) == Option::Some(e@),
            Option::None => parse_envelope(s@) is None,
        },
{
    let v = str_chars(s);
    let n = v.len();
    proof {
        assert(v@.skip(0) =~= s@);
    }
    match scan_lit(&v, 0, "{\"type\":") {
        None => None,
        Some(p1) => match scan_jstr(&v, p1) {
            None => None,
            Some((tag, p2)) => {
                if str_eq(tag.as_str(), "agent_card") {
                    match scan_lit(&v, p2, ",") {
                        None => None,
                        Some(p3) => match scan_card_tail(&v, p3) {
                            None => None,
                            Some((c, p4)) => {
                                if p4 == n {
                                    proof {
                                        assert(v@.skip(p4 as int).len() == 0);
                                    }
                                    Some(A2AEnvelope::AgentCard(c))
                                } else {
                                    None
                                }
                            },
                        },
                    }
                } else if str_eq(tag.as_str(), "task") {
                    match scan_lit(&v, p2, ",") {
                        None => None,
                        Some(p3) => match scan_task_tail(&v, p3) {
                            None => None,
                            Some((t, p4)) => {
                                if p4 == n {
                                    proof {
                                        assert(v@.skip(p4 as int).len() == 0);
                                    }
                                    Some(A2AEnvelope::Task(t))
                                } else {
                                    None
                                }
                            },
                        },
                    }
                } else if str_eq(tag.as_str(), "ack") {
                    match scan_lit(&v, p2, ",\"message_id\":") {
                        None => None,
                        Some(p3) => match scan_jstr(&v, p3) {
                            None => None,
                            Some((id, p4)) => match scan_lit(&v, p4, "}") {
                                None => None,
                                Some(p5) => {
                                    if p5 == n {
                                        proof {
                                            assert(v@.skip(p5 as int).len() == 0);
                                        }
                                        Some(A2AEnvelope::Ack { message_id: id })
                                    } else {
                                        None
                                    }
                                },
                            },
                        },
                    }
                } else if str_eq(tag.as_str(), "encrypted_task") {
                    match scan_lit(&v, p2, ",\"encrypted\":") {
                        None => None,
                        Some(p3) => match scan_payload(&v, p3) {
                            None => None,
                            Some((enc, p4)) => match scan_lit(&v, p4, ",\"sender_pubkey\":") {
                                None => None,
                                Some(p5) => match scan_jstr(&v, p5) {
                                    None => None,
                                    Some((spk, p6)) => match scan_lit(&v, p6, "}") {
                                        None => None,
                                        Some(p7) => {
                                            if p7 == n {
                                                proof {
                                                    assert(v@.skip(p7 as int).len() == 0);
                                                }
                                                Some(
                                                    A2AEnvelope::EncryptedTask {
                                                        encrypted: enc,
                                                        sender_pubkey: spk,
                                                    },
                                                )
                                            } else {
                                                None
                                            }
                                        },
                                    },
                                },
                            },
                        },
                    }
                } else {
                    None
                }
            },
        },
    }
}

/// Decode a bare task object from its JSON text, as found inside a decrypted
/// payload.
pub fn decode_task(s: &str) -> (r: Option<Task>)
    ensures
        match r {
            Option::Some(t) => parse_task(s@) == Option::Some(t@),
            Option::None => parse_task(s@) is None,
        },
{
    let v = str_chars(s);
    let n = v.len();
    proof {
        assert(v@.skip(0) =~= s@);
    }
    match scan_lit(&v, 0, "{") {
        None => None,
        Some(p1) => match scan_task_tail(&v, p1) {
            None => None,
            Some((t, p2)) => {
                if p2 == n {
                    proof {
                        assert(v@.skip(p2 as int).len() == 0);
                    }
                    Some(t)
                } else {
                    None
                }
            },
        },
    }
}

} // verus!
