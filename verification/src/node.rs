//! The agent node: announce and discover agents, send tasks reliably,
//! receive and answer them, with opportunistic end-to-end encryption when
//! both sides advertise an intro bundle.

use vstd::prelude::*;

verus! {

use crate::A2AError;
use crate::chars::bytes_to_string;
use crate::codec::{
    decode_envelope, decode_task, encode_envelope, encode_task, envelope_json,
    lemma_task_round_trip, parse_envelope, parse_task, task_json,
};
use crate::crypto::{
    chacha_seal, payload_open, secp256k1_public_of, secp_generate, secp_public_of_secret,
    secp_scalar_valid, x25519_public_of, x25519_shared, AgentIdentity,
};
use crate::encoding::{b64_of, hex_encode, hex_of, hex_open, lemma_hex_of_len};
use crate::model::{
    A2AEnvelope, A2AEnvelopeView, AgentCard, AgentCardView, EncryptedPayload,
    EncryptedPayloadView, Task, TaskView,
};
use crate::sds::{contains_id, dedup_batch, dedup_spec, publish_reliable_on, send_ack_on};
use crate::topics::{discovery_topic, task_topic};
use crate::transport::WakuTransport;
use vstd::string::StrSliceExecFns;
use vstd::utf8::{decode_utf8, encode_utf8, valid_utf8};

/// What decrypting a task from the wire yields: parse the sender's key,
/// derive the session key, open the payload, decode the plaintext as UTF-8,
/// and parse the bare task object.
pub open spec fn decrypt_task_spec(
    secret: Seq<u8>,
    sender_hex: Seq<char>,
    p: EncryptedPayloadView,
) -> Option<TaskView> {
    match hex_open(sender_hex) {
        Option::Some(pk) => {
            if pk.len() == 32 {
                match payload_open(x25519_shared(secret, pk), p) {
                    Option::Some(pt) => {
                        if valid_utf8(pt) {
                            parse_task(decode_utf8(pt))
                        } else {
                            Option::None
                        }
                    },
                    Option::None => Option::None,
                }
            } else {
                Option::None
            }
        },
        Option::None => Option::None,
    }
}

/// The discovery filter: the agent cards among decoded envelopes, own card
/// excluded, in arrival order.
pub open spec fn discover_filter(msgs: Seq<Seq<char>>, own_key: Seq<char>) -> Seq<AgentCardView>
    decreases msgs.len(),
{
    if msgs.len() == 0 {
        Seq::empty()
    } else {
        let rest = discover_filter(msgs.drop_first(), own_key);
        match parse_envelope(msgs[0]) {
            Option::Some(A2AEnvelopeView::AgentCard(c)) => {
                if c.public_key != own_key {
                    seq![c] + rest
                } else {
                    rest
                }
            },
            _ => rest,
        }
    }
}

/// Self-exclusion: no card the discovery filter keeps carries the node's
/// own public key, so an agent that announces and then discovers never sees
/// its own card.
pub proof fn lemma_discover_self_exclusion(msgs: Seq<Seq<char>>, own_key: Seq<char>)
    ensures
        forall|i: int|
            0 <= i < discover_filter(msgs, own_key).len() ==> #[trigger] discover_filter(
                msgs,
                own_key,
            )[i].public_key != own_key,
    decreases msgs.len(),
{
    if msgs.len() > 0 {
        lemma_discover_self_exclusion(msgs.drop_first(), own_key);
        let rest = discover_filter(msgs.drop_first(), own_key);
        let whole = discover_filter(msgs, own_key);
        match parse_envelope(msgs[0]) {
            Option::Some(A2AEnvelopeView::AgentCard(c)) => {
                if c.public_key != own_key {
                    assert(forall|k: int|
                        1 <= k < whole.len() ==> whole[k] == #[trigger] rest[k - 1]);
                }
            },
            _ => {},
        }
    }
}

/// Discovery over a single announcement: the announcer's own discover
/// filters its card out, while any agent whose key differs sees exactly the
/// announced card.  (Two distinct agents carry distinct keys with
/// overwhelming probability; that hypothesis stands as the `own_key`
/// inequality.)
pub proof fn lemma_single_announcement_discovery(c: AgentCardView, own_key: Seq<char>)
    ensures
        discover_filter(seq![envelope_json(A2AEnvelopeView::AgentCard(c))], c.public_key)
            == Seq::<AgentCardView>::empty(),
        own_key != c.public_key ==> discover_filter(
            seq![envelope_json(A2AEnvelopeView::AgentCard(c))],
            own_key,
        ) == seq![c],
{
    crate::codec::lemma_envelope_round_trip(A2AEnvelopeView::AgentCard(c));
    let msgs = seq![envelope_json(A2AEnvelopeView::AgentCard(c))];
    assert(msgs.drop_first() =~= Seq::<Seq<char>>::empty());
    assert(discover_filter(msgs.drop_first(), c.public_key) == Seq::<AgentCardView>::empty());
    assert(discover_filter(msgs.drop_first(), own_key) == Seq::<AgentCardView>::empty());
    if own_key != c.public_key {
        assert(discover_filter(msgs, own_key) =~= seq![c]);
    }
}

/// Whether a card advertises an intro bundle whose key is not the hex of
/// 32 bytes, so that sealing to it must fail.
pub open spec fn bundle_key_invalid(card: Option<AgentCardView>) -> bool {
    match card {
        Option::Some(c) => match c.intro_bundle {
            Option::Some(b) => match hex_open(b.agent_pubkey) {
                Option::Some(pk) => pk.len() != 32,
                Option::None => true,
            },
            Option::None => false,
        },
        Option::None => false,
    }
}

/// The receive pipeline over one deduplicated batch: surface plaintext
/// tasks; decrypt encrypted tasks when an identity is present, dropping
/// failures and ids already seen; ignore every other envelope.  Returns the
/// surfaced tasks and the updated seen-id list.
pub open spec fn dispatch_spec(
    msgs: Seq<Seq<char>>,
    ident: Option<Seq<u8>>,
    seen: Seq<Seq<char>>,
) -> (Seq<TaskView>, Seq<Seq<char>>)
    decreases msgs.len(),
{
    if msgs.len() == 0 {
        (Seq::empty(), seen)
    } else {
        let rest = msgs.drop_first();
        match parse_envelope(msgs[0]) {
            Option::Some(A2AEnvelopeView::Task(tv)) => {
                let rec = dispatch_spec(rest, ident, seen);
                (seq![tv] + rec.0, rec.1)
            },
            Option::Some(A2AEnvelopeView::EncryptedTask { encrypted, sender_pubkey }) => {
                match ident {
                    Option::Some(sec) => match decrypt_task_spec(sec, sender_pubkey, encrypted) {
                        Option::Some(tv) => {
                            if seen.contains(tv.id) {
                                dispatch_spec(rest, ident, seen)
                            } else {
                                let rec = dispatch_spec(rest, ident, seen.push(tv.id));
                                (seq![tv] + rec.0, rec.1)
                            }
                        },
                        Option::None => dispatch_spec(rest, ident, seen),
                    },
                    Option::None => dispatch_spec(rest, ident, seen),
                }
            },
            _ => dispatch_spec(rest, ident, seen),
        }
    }
}

/// An agent node: its card, its signing identity, an optional encryption
/// identity, the ids it has seen, and its lazily opened task subscription.
pub struct WakuA2ANode {
    pub card: AgentCard,
    signing_secret: Vec<u8>,
    identity: Option<AgentIdentity>,
    seen_ids: Vec<String>,
    task_sub: Option<usize>,
}

impl WakuA2ANode {
    /// The node's card.
    pub closed spec fn card_view(&self) -> AgentCardView {
        self.card@
    }

    /// The message ids this node has seen, first-seen order.
    pub closed spec fn seen(&self) -> Seq<Seq<char>> {
        self.seen_ids.deep_view()
    }

    /// The node's encryption secret, when encryption is enabled.
    pub closed spec fn enc_secret_opt(&self) -> Option<Seq<u8>> {
        match self.identity {
            Option::Some(id) => Option::Some(id.secret_bytes()),
            Option::None => Option::None,
        }
    }

    pub open spec fn has_identity(&self) -> bool {
        self.enc_secret_opt() is Some
    }

    /// Well-formed node: the card's public key is the hex of the signing
    /// key's public side, and an intro bundle is advertised exactly when an
    /// encryption identity is held, carrying that identity's public key.
    pub closed spec fn wf(&self) -> bool {
        &&& self.card@.public_key == hex_of(secp256k1_public_of(self.signing_secret@))
        &&& match (self.identity, self.card.intro_bundle) {
            (Option::Some(id), Option::Some(b)) => id.wf() && b.agent_pubkey@ == hex_of(
                id.public_bytes(),
            ),
            (Option::None, Option::None) => true,
            _ => false,
        }
    }

    /// A node with a fresh signing keypair and no encryption identity.
    pub fn new(name: &str, description: &str, capabilities: Vec<String>) -> (r: WakuA2ANode)
        ensures
            r.wf(),
            r.card_view().name == name@,
            r.card_view().description == description@,
            r.card_view().version == "0.1.0"@,
            r.card_view().capabilities == capabilities.deep_view(),
            r.card_view().public_key.len() == 66,
            r.card_view().intro_bundle is None,
            !r.has_identity(),
            r.seen() == Seq::<Seq<char>>::empty(),
    {
        let (signing_secret, pk) = secp_generate();
        let public_key = hex_encode(pk.as_slice());
        proof {
            lemma_hex_of_len(pk@);
        }
        let card = AgentCard {
            name: name.to_owned(),
            description: description.to_owned(),
            version: "0.1.0".to_owned(),
            capabilities,
            public_key,
            intro_bundle: None,
        };
        let r = WakuA2ANode {
            card,
            signing_secret,
            identity: None,
            seen_ids: Vec::new(),
            task_sub: None,
        };
        proof {
            assert(r.seen() =~= Seq::<Seq<char>>::empty());
        }
        r
    }

    /// A node with encryption enabled: a fresh X25519 identity whose public
    /// key is advertised in the card's intro bundle.
    pub fn new_encrypted(name: &str, description: &str, capabilities: Vec<String>) -> (r:
        WakuA2ANode)
        ensures
            r.wf(),
            r.card_view().name == name@,
            r.card_view().description == description@,
            r.card_view().version == "0.1.0"@,
            r.card_view().capabilities == capabilities.deep_view(),
            r.card_view().public_key.len() == 66,
            r.has_identity(),
            r.card_view().intro_bundle matches Some(b) && b.agent_pubkey.len() == 64
                && b.version == "1.0"@,
            r.seen() == Seq::<Seq<char>>::empty(),
    {
        let (signing_secret, pk) = secp_generate();
        let public_key = hex_encode(pk.as_slice());
        let identity = AgentIdentity::generate();
        let pub_hex = identity.public_key_hex();
        let bundle = crate::model::IntroBundle::new(pub_hex.as_str());
        proof {
            lemma_hex_of_len(pk@);
            lemma_hex_of_len(identity.public_bytes());
        }
        let card = AgentCard {
            name: name.to_owned(),
            description: description.to_owned(),
            version: "0.1.0".to_owned(),
            capabilities,
            public_key,
            intro_bundle: Some(bundle),
        };
        let r = WakuA2ANode {
            card,
            signing_secret,
            identity: Some(identity),
            seen_ids: Vec::new(),
            task_sub: None,
        };
        proof {
            assert(r.seen() =~= Seq::<Seq<char>>::empty());
        }
        r
    }

    /// A node built from an existing 32-byte signing secret; fails exactly
    /// when the bytes are not a valid nonzero scalar.
    pub fn from_key(
        name: &str,
        description: &str,
        capabilities: Vec<String>,
        signing_secret: Vec<u8>,
    ) -> (r: Result<WakuA2ANode, A2AError>)
        ensures
            r is Ok <==> secp_scalar_valid(signing_secret@),
            r matches Ok(node) ==> {
                &&& node.wf()
                &&& node.card_view().name == name@
                &&& node.card_view().public_key == hex_of(
                    secp256k1_public_of(signing_secret@),
                )
                &&& node.card_view().intro_bundle is None
                &&& !node.has_identity()
            },
    {
        if signing_secret.len() != 32 {
            return Err(A2AError::Crypto);
        }
        let pk = secp_public_of_secret(&signing_secret)?;
        let public_key = hex_encode(pk.as_slice());
        let card = AgentCard {
            name: name.to_owned(),
            description: description.to_owned(),
            version: "0.1.0".to_owned(),
            capabilities,
            public_key,
            intro_bundle: None,
        };
        Ok(
            WakuA2ANode {
                card,
                signing_secret,
                identity: None,
                seen_ids: Vec::new(),
                task_sub: None,
            },
        )
    }

    /// This agent's public key, hex of its compressed signing key.
    pub fn pubkey(&self) -> (r: &str)
        ensures
            r@ == self.card_view().public_key,
    {
        self.card.public_key.as_str()
    }

    /// The signing secret (for tests and advanced use).
    pub fn signing_key(&self) -> &Vec<u8> {
        &self.signing_secret
    }

    /// The encryption identity, if encryption is enabled.
    pub fn identity(&self) -> (r: Option<&AgentIdentity>)
        ensures
            match r {
                Option::Some(id) => self.enc_secret_opt() == Option::Some(id.secret_bytes()),
                Option::None => !self.has_identity(),
            },
    {
        self.identity.as_ref()
    }

    /// The announcement payload: this node's card in an envelope.
    pub fn announce_payload(&self) -> (r: String)
        ensures
            r@ == envelope_json(A2AEnvelopeView::AgentCard(self.card_view())),
    {
        let env = A2AEnvelope::AgentCard(self.card.clone());
        encode_envelope(&env)
    }

    /// Broadcast this node's card on the discovery topic.  Best effort: the
    /// payload is exact (`announce_payload`), delivery is up to the
    /// transport.
    pub fn announce<T: WakuTransport>(&self, t: &mut T) -> (r: Result<(), A2AError>) {
        let topic = discovery_topic();
        let payload = self.announce_payload();
        t.publish(topic.as_str(), payload.as_str())
    }

    /// The discovery filter over a drained batch: decoded agent cards,
    /// this node's own card excluded, in arrival order.
    pub fn filter_cards(&self, msgs: &Vec<String>) -> (r: Vec<AgentCard>)
        ensures
            r.deep_view() == discover_filter(msgs.deep_view(), self.card_view().public_key),
            forall|i: int|
                0 <= i < r.deep_view().len() ==> #[trigger] r.deep_view()[i].public_key
                    != self.card_view().public_key,
    {
        let n = msgs.len();
        let mut out: Vec<AgentCard> = Vec::new();
        let mut i: usize = 0;
        proof {
            assert(msgs.deep_view().skip(0) =~= msgs.deep_view());
            assert(out.deep_view() + discover_filter(msgs.deep_view(), self.card_view().public_key)
                =~= discover_filter(msgs.deep_view(), self.card_view().public_key));
        }
        while i < n
            invariant
                i <= n,
                n == msgs@.len(),
                msgs.deep_view().len() == n,
                discover_filter(msgs.deep_view(), self.card_view().public_key) == out.deep_view()
                    + discover_filter(
                    msgs.deep_view().skip(i as int),
                    self.card_view().public_key,
                ),
            decreases n - i,
        {
            let ghost sfx = msgs.deep_view().skip(i as int);
            proof {
                assert(sfx[0] == msgs.deep_view()[i as int]);
                assert(msgs.deep_view()[i as int] == msgs@[i as int]@);
                assert(sfx.drop_first() =~= msgs.deep_view().skip(i as int + 1));
            }
            match decode_envelope(msgs[i].as_str()) {
                Some(A2AEnvelope::AgentCard(c)) => {
                    if !crate::chars::str_eq(c.public_key.as_str(), self.card.public_key.as_str())
                    {
                        let ghost pre = out.deep_view();
                        let ghost cv = c@;
                        out.push(c);
                        proof {
                            assert(out.deep_view() =~= pre.push(cv)) by {
                                assert(forall|j: int|
                                    0 <= j < out@.len() ==> out.deep_view()[j]
                                        == #[trigger] out@[j]@);
                            }
                            assert(forall|b: Seq<AgentCardView>|
                                pre.push(cv) + b =~= pre + (seq![cv] + b));
                        }
                    }
                },
                _ => {},
            }
            i = i + 1;
        }
        proof {
            assert(msgs.deep_view().skip(n as int) =~= Seq::<Seq<char>>::empty());
            assert(out.deep_view() + Seq::<AgentCardView>::empty() =~= out.deep_view());
            lemma_discover_self_exclusion(msgs.deep_view(), self.card_view().public_key);
        }
        out
    }

    /// Discover agents: subscribe to the discovery topic, drain what is
    /// immediately available, unsubscribe, and keep the agent cards of
    /// other agents.
    pub fn discover<T: WakuTransport>(&self, t: &mut T) -> (r: Result<Vec<AgentCard>, A2AError>)
        ensures
            r matches Ok(cards) ==> forall|i: int|
                0 <= i < cards.deep_view().len() ==> #[trigger] cards.deep_view()[i].public_key
                    != self.card_view().public_key,
    {
        let topic = discovery_topic();
        let sub = t.subscribe(topic.as_str())?;
        let msgs = t.poll(sub)?;
        let _ = t.unsubscribe(topic.as_str());
        Ok(self.filter_cards(&msgs))
    }

    /// Build the outbound envelope for a task: sealed to the recipient when
    /// this node holds an identity and the recipient's card advertises an
    /// intro bundle, plaintext otherwise.
    pub fn maybe_encrypt_task(&self, task: &Task, recipient_card: Option<&AgentCard>) -> (r:
        Result<A2AEnvelope, A2AError>)
        requires
            self.wf(),
        ensures
            match recipient_card {
                Option::Some(c) => match (self.enc_secret_opt(), c@.intro_bundle) {
                    (Option::Some(sec), Option::Some(b)) => {
                        &&& (r matches Ok(env) ==> env@ matches
                            A2AEnvelopeView::EncryptedTask { encrypted, sender_pubkey } && {
                            &&& sender_pubkey == hex_of(x25519_public_of(sec))
                            &&& hex_open(b.agent_pubkey) matches Some(pk) && pk.len() == 32
                            &&& exists|n: Seq<u8>|
                                #[trigger] b64_of(n) == encrypted.nonce && n.len() == 12
                                    && encrypted.ciphertext == b64_of(
                                    chacha_seal(
                                        x25519_shared(sec, hex_open(b.agent_pubkey)->Some_0),
                                        n,
                                        encode_utf8(task_json(task@)),
                                    ),
                                )
                        })
                        &&& (hex_open(b.agent_pubkey) matches Some(pk) && pk.len() == 32
                            && encode_utf8(task_json(task@)).len() < 0x100000000 ==> r is Ok)
                        &&& (hex_open(b.agent_pubkey) is None ==> r is Err)
                        &&& (hex_open(b.agent_pubkey) matches Some(pk) && pk.len() != 32
                            ==> r is Err)
                    },
                    _ => r matches Ok(env) && env@ == A2AEnvelopeView::Task(task@),
                },
                Option::None => r matches Ok(env) && env@ == A2AEnvelopeView::Task(task@),
            },
    {
        match recipient_card {
            Some(c) => {
                match (&self.identity, &c.intro_bundle) {
                    (Some(identity), Some(bundle)) => {
                        let pk = AgentIdentity::parse_public_key(bundle.agent_pubkey.as_str())?;
                        let session = identity.shared_key(&pk);
                        let plain = encode_task(task);
                        let pt = plain.as_str().as_bytes_vec();
                        let sealed = session.encrypt(pt.as_slice())?;
                        let sender = identity.public_key_hex();
                        Ok(A2AEnvelope::EncryptedTask { encrypted: sealed, sender_pubkey: sender })
                    },
                    _ => Ok(A2AEnvelope::Task(task.clone())),
                }
            },
            None => Ok(A2AEnvelope::Task(task.clone())),
        }
    }

    /// Send a task reliably (plaintext; see `send_task_to` to seal it).
    pub fn send_task<T: WakuTransport>(&self, t: &mut T, task: &Task) -> (r: Result<
        bool,
        A2AError,
    >)
        requires
            self.wf(),
    {
        self.send_task_to(t, task, None)
    }

    /// Send a task with reliable delivery: the envelope (sealed per the
    /// recipient's card) goes out on the recipient's task topic and the
    /// reliability layer waits for an ack, retransmitting as needed.
    pub fn send_task_to<T: WakuTransport>(
        &self,
        t: &mut T,
        task: &Task,
        recipient_card: Option<&AgentCard>,
    ) -> (r: Result<bool, A2AError>)
        requires
            self.wf(),
        ensures
            self.has_identity() && bundle_key_invalid(
                match recipient_card {
                    Option::Some(c) => Option::Some(c@),
                    Option::None => Option::None,
                },
            ) ==> r is Err,
    {
        let env = self.maybe_encrypt_task(task, recipient_card)?;
        let payload = encode_envelope(&env);
        let topic = task_topic(task.to.as_str());
        publish_reliable_on(t, topic.as_str(), payload.as_str(), task.id.as_str())
    }

    /// Create a task addressed to `to` with the given text and send it
    /// reliably; the task is returned whether or not it was acknowledged.
    pub fn send_text<T: WakuTransport>(&self, t: &mut T, to: &str, text: &str) -> (r: Result<
        Task,
        A2AError,
    >)
        requires
            self.wf(),
        ensures
            r matches Ok(task) ==> {
                &&& task@.from == self.card_view().public_key
                &&& task@.to == to@
                &&& task@.state == crate::model::TaskState::Submitted
                &&& crate::model::first_text(task@.message.parts) == Option::Some(text@)
            },
    {
        let task = Task::new(self.pubkey(), to, text);
        let _acked = self.send_task(t, &task)?;
        Ok(task)
    }

    /// Decrypt a received encrypted task with this node's identity and the
    /// sender's advertised key.  Exactly the payloads that decode, open
    /// under the derived session key and parse as a task succeed; in
    /// particular a task sealed by the peer whose secret derives
    /// `sender_pubkey_hex` decrypts back to that very task.
    #[verifier::rlimit(100)]
    #[verifier::spinoff_prover]
    pub fn decrypt_task(&self, sender_pubkey_hex: &str, encrypted: &EncryptedPayload) -> (r:
        Result<Task, A2AError>)
        requires
            self.wf(),
            self.has_identity(),
        ensures
            match decrypt_task_spec(
                self.enc_secret_opt()->Some_0,
                sender_pubkey_hex@,
                encrypted@,
            ) {
                Option::Some(tv) => r matches Ok(task) && task@ == tv,
                Option::None => r is Err,
            },
            forall|t: TaskView, n: Seq<u8>, osec: Seq<u8>|
                #![trigger x25519_shared(osec, x25519_public_of(self.enc_secret_opt()->Some_0)),
                    b64_of(n), task_json(t)]
                {
                    &&& hex_open(sender_pubkey_hex@) == Option::Some(x25519_public_of(osec))
                    &&& x25519_public_of(osec).len() == 32
                    &&& n.len() == 12
                    &&& encrypted@.nonce == b64_of(n)
                    &&& encrypted@.ciphertext == b64_of(
                        chacha_seal(
                            x25519_shared(osec, x25519_public_of(self.enc_secret_opt()->Some_0)),
                            n,
                            encode_utf8(task_json(t)),
                        ),
                    )
                } ==> r is Ok && r->Ok_0@ == t,
    {
        let identity = match &self.identity {
            Some(id) => id,
            None => {
                return Err(A2AError::Crypto);
            },
        };
        let pk = match AgentIdentity::parse_public_key(sender_pubkey_hex) {
            Ok(pk) => pk,
            Err(e) => {
                proof {
                    let sec = self.enc_secret_opt()->Some_0;
                    assert forall|t: TaskView, n: Seq<u8>, osec: Seq<u8>|
                        {
                    &&& hex_open(sender_pubkey_hex@) == Option::Some(
                        #[trigger] x25519_public_of(osec),
                    )
                    &&& x25519_public_of(osec).len() == 32
                    &&& n.len() == 12
                    &&& encrypted@.nonce == #[trigger] b64_of(n)
                    &&& encrypted@.ciphertext == b64_of(
                        chacha_seal(
                            x25519_shared(osec, x25519_public_of(sec)),
                            n,
                            encode_utf8(#[trigger] task_json(t)),
                        ),
                    )
                } implies false by {}
                }
                return Err(e);
            },
        };
        let session = identity.shared_key(&pk);
        let pt = match session.decrypt(encrypted) {
            Ok(pt) => pt,
            Err(e) => {
                proof {
                    let sec = self.enc_secret_opt()->Some_0;
                    assert forall|t: TaskView, n: Seq<u8>, osec: Seq<u8>|
                        {
                    &&& hex_open(sender_pubkey_hex@) == Option::Some(
                        #[trigger] x25519_public_of(osec),
                    )
                    &&& x25519_public_of(osec).len() == 32
                    &&& n.len() == 12
                    &&& encrypted@.nonce == #[trigger] b64_of(n)
                    &&& encrypted@.ciphertext == b64_of(
                        chacha_seal(
                            x25519_shared(osec, x25519_public_of(sec)),
                            n,
                            encode_utf8(#[trigger] task_json(t)),
                        ),
                    )
                } implies false by {
                        assert(pk@ == x25519_public_of(osec));
                        assert(session.key_bytes() == x25519_shared(
                            osec,
                            x25519_public_of(sec),
                        ));
                    }
                }
                return Err(e);
            },
        };
        let ghost ptv = pt@;
        let text = match bytes_to_string(pt) {
            Ok(s) => s,
            Err(e) => {
                proof {
                    assert(!valid_utf8(ptv));
                    let sec = self.enc_secret_opt()->Some_0;
                    assert forall|t: TaskView, n: Seq<u8>, osec: Seq<u8>|
                        {
                    &&& hex_open(sender_pubkey_hex@) == Option::Some(
                        #[trigger] x25519_public_of(osec),
                    )
                    &&& x25519_public_of(osec).len() == 32
                    &&& n.len() == 12
                    &&& encrypted@.nonce == #[trigger] b64_of(n)
                    &&& encrypted@.ciphertext == b64_of(
                        chacha_seal(
                            x25519_shared(osec, x25519_public_of(sec)),
                            n,
                            encode_utf8(#[trigger] task_json(t)),
                        ),
                    )
                } implies false by {
                        assert(pk@ == x25519_public_of(osec));
                        assert(session.key_bytes() == x25519_shared(
                            osec,
                            x25519_public_of(sec),
                        ));
                        assert(ptv == encode_utf8(task_json(t)));
                        vstd::utf8::encode_utf8_valid_utf8(task_json(t));
                    }
                }
                return Err(e);
            },
        };
        let r = match decode_task(text.as_str()) {
            Some(task) => Ok(task),
            None => Err(A2AError::Encoding),
        };
        proof {
            let sec = self.enc_secret_opt()->Some_0;
            assert forall|t: TaskView, n: Seq<u8>, osec: Seq<u8>|
                {
                    &&& hex_open(sender_pubkey_hex@) == Option::Some(
                        #[trigger] x25519_public_of(osec),
                    )
                    &&& x25519_public_of(osec).len() == 32
                    &&& n.len() == 12
                    &&& encrypted@.nonce == #[trigger] b64_of(n)
                    &&& encrypted@.ciphertext == b64_of(
                        chacha_seal(
                            x25519_shared(osec, x25519_public_of(sec)),
                            n,
                            encode_utf8(#[trigger] task_json(t)),
                        ),
                    )
                } implies r is Ok && r->Ok_0@ == t by {
                assert(pk@ == x25519_public_of(osec));
                assert(session.key_bytes() == x25519_shared(osec, x25519_public_of(sec)));
                assert(ptv == encode_utf8(task_json(t)));
                vstd::utf8::encode_utf8_valid_utf8(task_json(t));
                vstd::utf8::encode_utf8_decode_utf8(task_json(t));
                assert(text@ == task_json(t));
                lemma_task_round_trip(t);
            }
        }
        r
    }

    /// The receive pipeline over one deduplicated batch; see
    /// `dispatch_spec`.  Returns the surfaced tasks; each of their ids is
    /// owed an ack.
    #[verifier::rlimit(100)]
    #[verifier::spinoff_prover]
    pub fn ingest(&mut self, msgs: &Vec<String>) -> (r: Vec<Task>)
        requires
            old(self).wf(),
        ensures
            final(self).wf(),
            final(self).card_view() == old(self).card_view(),
            final(self).enc_secret_opt() == old(self).enc_secret_opt(),
            (r.deep_view(), final(self).seen()) == dispatch_spec(
                msgs.deep_view(),
                old(self).enc_secret_opt(),
                old(self).seen(),
            ),
    {
        let n = msgs.len();
        let mut out: Vec<Task> = Vec::new();
        let mut i: usize = 0;
        proof {
            assert(msgs.deep_view().skip(0) =~= msgs.deep_view());
            assert(out.deep_view() + dispatch_spec(
                msgs.deep_view(),
                self.enc_secret_opt(),
                self.seen(),
            ).0 =~= dispatch_spec(msgs.deep_view(), self.enc_secret_opt(), self.seen()).0);
        }
        while i < n
            invariant
                i <= n,
                n == msgs@.len(),
                msgs.deep_view().len() == n,
                self.wf(),
                self.card_view() == old(self).card_view(),
                self.enc_secret_opt() == old(self).enc_secret_opt(),
                dispatch_spec(msgs.deep_view(), old(self).enc_secret_opt(), old(self).seen()).0
                    == out.deep_view() + dispatch_spec(
                    msgs.deep_view().skip(i as int),
                    self.enc_secret_opt(),
                    self.seen(),
                ).0,
                dispatch_spec(msgs.deep_view(), old(self).enc_secret_opt(), old(self).seen()).1
                    == dispatch_spec(
                    msgs.deep_view().skip(i as int),
                    self.enc_secret_opt(),
                    self.seen(),
                ).1,
            decreases n - i,
    {
            let ghost sfx = msgs.deep_view().skip(i as int);
            proof {
                assert(sfx[0] == msgs.deep_view()[i as int]);
                assert(msgs.deep_view()[i as int] == msgs@[i as int]@);
                assert(sfx.drop_first() =~= msgs.deep_view().skip(i as int + 1));
            }
            match decode_envelope(msgs[i].as_str()) {
                Some(A2AEnvelope::Task(task)) => {
                    let ghost pre = out.deep_view();
                    let ghost tv = task@;
                    out.push(task);
                    proof {
                        assert(out.deep_view() =~= pre.push(tv)) by {
                            assert(forall|j: int|
                                0 <= j < out@.len() ==> out.deep_view()[j]
                                    == #[trigger] out@[j]@);
                        }
                        assert(forall|b: Seq<TaskView>|
                            pre.push(tv) + b =~= pre + (seq![tv] + b));
                    }
                },
                Some(A2AEnvelope::EncryptedTask { encrypted, sender_pubkey }) => {
                    if self.identity.is_some() {
                        match self.decrypt_task(sender_pubkey.as_str(), &encrypted) {
                            Ok(task) => {
                                if !contains_id(&self.seen_ids, task.id.as_str()) {
                                    let ghost pre_seen = self.seen_ids.deep_view();
                                    self.seen_ids.push(task.id.clone());
                                    let ghost pre = out.deep_view();
                                    let ghost tv = task@;
                                    out.push(task);
                                    proof {
                                        assert(self.seen_ids.deep_view() =~= pre_seen.push(tv.id))
                                            by {
                                            assert(forall|j: int|
                                                0 <= j < self.seen_ids@.len()
                                                    ==> self.seen_ids.deep_view()[j]
                                                    == #[trigger] self.seen_ids@[j]@);
                                        }
                                        assert(out.deep_view() =~= pre.push(tv)) by {
                                            assert(forall|j: int|
                                                0 <= j < out@.len() ==> out.deep_view()[j]
                                                    == #[trigger] out@[j]@);
                                        }
                                        assert(forall|b: Seq<TaskView>|
                                            pre.push(tv) + b =~= pre + (seq![tv] + b));
                                    }
                                }
                            },
                            Err(_) => {},
                        }
                    }
                },
                _ => {},
            }
            i = i + 1;
        }
        proof {
            assert(msgs.deep_view().skip(n as int) =~= Seq::<Seq<char>>::empty());
            assert(out.deep_view() + Seq::<TaskView>::empty() =~= out.deep_view());
        }
        out
    }

    /// Poll for tasks addressed to this node.  The task-topic subscription
    /// is opened on first use and kept; the drained batch is deduplicated by
    /// root id, dispatched per `dispatch_spec`, and every surfaced task is
    /// acknowledged on its ack topic.
    pub fn poll_tasks<T: WakuTransport>(&mut self, t: &mut T) -> (r: Result<Vec<Task>, A2AError>)
        requires
            old(self).wf(),
        ensures
            final(self).wf(),
            final(self).card_view() == old(self).card_view(),
            final(self).enc_secret_opt() == old(self).enc_secret_opt(),
            r matches Ok(v) ==> exists|raw: Seq<Seq<char>>|
                {
                    let d = #[trigger] dedup_spec(old(self).seen(), raw);
                    (v.deep_view(), final(self).seen()) == dispatch_spec(
                        d.0,
                        old(self).enc_secret_opt(),
                        d.1,
                    )
                },
            r is Err ==> final(self).seen() == old(self).seen(),
    {
        if self.task_sub.is_none() {
            let topic = task_topic(self.card.public_key.as_str());
            match t.subscribe(topic.as_str()) {
                Ok(sub) => {
                    self.task_sub = Some(sub);
                },
                Err(e) => {
                    return Err(e);
                },
            }
        }
        let sub = match self.task_sub {
            Some(s) => s,
            None => {
                let none_polled: Vec<Task> = Vec::new();
                proof {
                    let e: Seq<Seq<char>> = Seq::empty();
                    let d = dedup_spec(old(self).seen(), e);
                    assert(d.0 == Seq::<Seq<char>>::empty() && d.1 == old(self).seen());
                    assert(dispatch_spec(d.0, old(self).enc_secret_opt(), d.1) == (
                    Seq::<TaskView>::empty(),
                    old(self).seen(),
                    ));
                    assert(none_polled.deep_view() =~= Seq::<TaskView>::empty());
                }
                return Ok(none_polled);
            },
        };
        let raw = match t.poll(sub) {
            Ok(v) => v,
            Err(_) => Vec::new(),
        };
        let ghost raw_v = raw.deep_view();
        let deduped = dedup_batch(&mut self.seen_ids, raw);
        let tasks = self.ingest(&deduped);
        let mut i: usize = 0;
        while i < tasks.len()
            decreases tasks.len() - i,
        {
            let _ = send_ack_on(t, tasks[i].id.as_str());
            i = i + 1;
        }
        proof {
            let d = dedup_spec(old(self).seen(), raw_v);
            assert((tasks.deep_view(), self.seen()) == dispatch_spec(
                d.0,
                old(self).enc_secret_opt(),
                d.1,
            ));
        }
        Ok(tasks)
    }

    /// Answer a task: publish the completed response (same id, endpoints
    /// swapped, result set) on the original sender's task topic, plaintext.
    pub fn respond<T: WakuTransport>(&self, t: &mut T, task: &Task, result_text: &str) -> (r:
        Result<(), A2AError>)
        requires
            self.wf(),
    {
        self.respond_to(t, task, result_text, None)
    }

    /// Answer a task, sealing the response when the sender's card
    /// advertises an intro bundle.  Responses are published without the
    /// ack wait: they complete an already-acknowledged request, and a lost
    /// response surfaces as an unanswered poll on the requester.
    pub fn respond_to<T: WakuTransport>(
        &self,
        t: &mut T,
        task: &Task,
        result_text: &str,
        sender_card: Option<&AgentCard>,
    ) -> (r: Result<(), A2AError>)
        requires
            self.wf(),
        ensures
            self.has_identity() && bundle_key_invalid(
                match sender_card {
                    Option::Some(c) => Option::Some(c@),
                    Option::None => Option::None,
                },
            ) ==> r is Err,
    {
        let response = task.respond(result_text);
        let env = self.maybe_encrypt_task(&response, sender_card)?;
        let payload = encode_envelope(&env);
        let topic = task_topic(response.to.as_str());
        t.publish(topic.as_str(), payload.as_str())
    }
}

} // verus!
