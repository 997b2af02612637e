//! The data model: agent cards, tasks, messages and the wire envelope.

use vstd::prelude::*;

verus! {

/// Task lifecycle states.
#[derive(Clone, Copy, Debug, PartialEq, Eq, Structural)]
pub enum TaskState {
    Submitted,
    Working,
    InputRequired,
    Completed,
    Failed,
    Cancelled,
}

/// A message part.  Text-only in this protocol version; the tagged encoding
/// leaves room for further variants.
#[derive(Debug, PartialEq)]
pub enum Part {
    Text { text: String },
}

#[verifier::ext_equal]
pub enum PartView {
    Text { text: Seq<char> },
}

impl View for Part {
    type V = PartView;

    open spec fn view(&self) -> PartView {
        match self {
            Part::Text { text } => PartView::Text { text: text@ },
        }
    }
}

impl DeepView for Part {
    type V = PartView;

    open spec fn deep_view(&self) -> PartView {
        self.view()
    }
}

/// A message within a task: an advisory role and an ordered list of parts.
#[derive(Debug, PartialEq)]
pub struct Message {
    pub role: String,
    pub parts: Vec<Part>,
}

#[verifier::ext_equal]
pub struct MessageView {
    pub role: Seq<char>,
    pub parts: Seq<PartView>,
}

impl View for Message {
    type V = MessageView;

    open spec fn view(&self) -> MessageView {
        MessageView { role: self.role@, parts: self.parts.deep_view() }
    }
}

/// The unit of work exchanged between agents.  A response keeps the request's
/// `id`, swaps `from` and `to`, and carries the result message.
#[derive(Debug, PartialEq)]
pub struct Task {
    pub id: String,
    pub from: String,
    pub to: String,
    pub state: TaskState,
    pub message: Message,
    pub result: Option<Message>,
}

#[verifier::ext_equal]
pub struct TaskView {
    pub id: Seq<char>,
    pub from: Seq<char>,
    pub to: Seq<char>,
    pub state: TaskState,
    pub message: MessageView,
    pub result: Option<MessageView>,
}

impl View for Task {
    type V = TaskView;

    open spec fn view(&self) -> TaskView {
        TaskView {
            id: self.id@,
            from: self.from@,
            to: self.to@,
            state: self.state,
            message: self.message@,
            result: match self.result {
                Option::Some(m) => Option::Some(m@),
                Option::None => Option::None,
            },
        }
    }
}

impl DeepView for Task {
    type V = TaskView;

    open spec fn deep_view(&self) -> TaskView {
        self.view()
    }
}

/// The X25519 public key an agent advertises to opt into encrypted sessions.
#[derive(Debug, PartialEq)]
pub struct IntroBundle {
    pub agent_pubkey: String,
    pub version: String,
}

#[verifier::ext_equal]
pub struct IntroBundleView {
    pub agent_pubkey: Seq<char>,
    pub version: Seq<char>,
}

impl View for IntroBundle {
    type V = IntroBundleView;

    open spec fn view(&self) -> IntroBundleView {
        IntroBundleView { agent_pubkey: self.agent_pubkey@, version: self.version@ }
    }
}

impl IntroBundle {
    pub fn new(agent_pubkey: &str) -> (r: IntroBundle)
        ensures
            r@.agent_pubkey == agent_pubkey@,
            r@.version == "1.0"@,
    {
        IntroBundle { agent_pubkey: agent_pubkey.to_owned(), version: "1.0".to_owned() }
    }
}

/// An agent's advertisement, broadcast on the discovery topic.
#[derive(Debug, PartialEq)]
pub struct AgentCard {
    pub name: String,
    pub description: String,
    pub version: String,
    pub capabilities: Vec<String>,
    /// Hex of the agent's compressed secp256k1 public key: its identity.
    pub public_key: String,
    /// Present exactly when the agent accepts encrypted tasks.
    pub intro_bundle: Option<IntroBundle>,
}

#[verifier::ext_equal]
pub struct AgentCardView {
    pub name: Seq<char>,
    pub description: Seq<char>,
    pub version: Seq<char>,
    pub capabilities: Seq<Seq<char>>,
    pub public_key: Seq<char>,
    pub intro_bundle: Option<IntroBundleView>,
}

impl View for AgentCard {
    type V = AgentCardView;

    open spec fn view(&self) -> AgentCardView {
        AgentCardView {
            name: self.name@,
            description: self.description@,
            version: self.version@,
            capabilities: self.capabilities.deep_view(),
            public_key: self.public_key@,
            intro_bundle: match self.intro_bundle {
                Option::Some(b) => Option::Some(b@),
                Option::None => Option::None,
            },
        }
    }
}

impl DeepView for AgentCard {
    type V = AgentCardView;

    open spec fn deep_view(&self) -> AgentCardView {
        self.view()
    }
}

/// An AEAD-sealed task: base64 of the random nonce and of the ciphertext.
#[derive(Debug, PartialEq)]
pub struct EncryptedPayload {
    pub nonce: String,
    pub ciphertext: String,
}

#[verifier::ext_equal]
pub struct EncryptedPayloadView {
    pub nonce: Seq<char>,
    pub ciphertext: Seq<char>,
}

impl View for EncryptedPayload {
    type V = EncryptedPayloadView;

    open spec fn view(&self) -> EncryptedPayloadView {
        EncryptedPayloadView { nonce: self.nonce@, ciphertext: self.ciphertext@ }
    }
}

/// The wire envelope: every payload on every topic is one of these variants,
/// JSON-encoded with a `type` discriminator.
#[derive(Debug, PartialEq)]
pub enum A2AEnvelope {
    AgentCard(AgentCard),
    Task(Task),
    Ack { message_id: String },
    EncryptedTask { encrypted: EncryptedPayload, sender_pubkey: String },
}

#[verifier::ext_equal]
pub enum A2AEnvelopeView {
    AgentCard(AgentCardView),
    Task(TaskView),
    Ack { message_id: Seq<char> },
    EncryptedTask { encrypted: EncryptedPayloadView, sender_pubkey: Seq<char> },
}

impl View for A2AEnvelope {
    type V = A2AEnvelopeView;

    open spec fn view(&self) -> A2AEnvelopeView {
        match self {
            A2AEnvelope::AgentCard(c) => A2AEnvelopeView::AgentCard(c@),
            A2AEnvelope::Task(t) => A2AEnvelopeView::Task(t@),
            A2AEnvelope::Ack { message_id } => A2AEnvelopeView::Ack { message_id: message_id@ },
            A2AEnvelope::EncryptedTask { encrypted, sender_pubkey } => (
                A2AEnvelopeView::EncryptedTask {
                    encrypted: encrypted@,
                    sender_pubkey: sender_pubkey@,
                }
            ),
        }
    }
}

/// The text of the first part of a message, if any.
pub open spec fn first_text(parts: Seq<PartView>) -> Option<Seq<char>> {
    if parts.len() == 0 {
        Option::None
    } else {
        match parts[0] {
            PartView::Text { text } => Option::Some(text),
        }
    }
}

impl Clone for Part {
    fn clone(&self) -> (r: Self)
        ensures
            r@ == self@,
    {
        match self {
            Part::Text { text } => Part::Text { text: text.clone() },
        }
    }
}

impl Clone for Message {
    fn clone(&self) -> (r: Self)
        ensures
            r@ == self@,
    {
        let parts = self.parts.clone();
        assert(parts.deep_view() =~= self.parts.deep_view()) by {
            assert(forall|i: int|
                0 <= i < parts@.len() ==> parts@[i]@ == #[trigger] self.parts@[i]@);
        }
        Message { role: self.role.clone(), parts }
    }
}

impl Clone for Task {
    fn clone(&self) -> (r: Self)
        ensures
            r@ == self@,
    {
        Task {
            id: self.id.clone(),
            from: self.from.clone(),
            to: self.to.clone(),
            state: self.state,
            message: self.message.clone(),
            result: match &self.result {
                Some(m) => Some(m.clone()),
                None => None,
            },
        }
    }
}

impl Clone for IntroBundle {
    fn clone(&self) -> (r: Self)
        ensures
            r@ == self@,
    {
        IntroBundle { agent_pubkey: self.agent_pubkey.clone(), version: self.version.clone() }
    }
}

impl Clone for AgentCard {
    fn clone(&self) -> (r: Self)
        ensures
            r@ == self@,
    {
        let capabilities = self.capabilities.clone();
        assert(capabilities.deep_view() =~= self.capabilities.deep_view()) by {
            assert(forall|i: int|
                0 <= i < capabilities@.len()
                    ==> capabilities@[i]@ == #[trigger] self.capabilities@[i]@);
        }
        AgentCard {
            name: self.name.clone(),
            description: self.description.clone(),
            version: self.version.clone(),
            capabilities,
            public_key: self.public_key.clone(),
            intro_bundle: match &self.intro_bundle {
                Some(b) => Some(b.clone()),
                None => None,
            },
        }
    }
}

impl Clone for EncryptedPayload {
    fn clone(&self) -> (r: Self)
        ensures
            r@ == self@,
    {
        EncryptedPayload { nonce: self.nonce.clone(), ciphertext: self.ciphertext.clone() }
    }
}

impl Clone for A2AEnvelope {
    fn clone(&self) -> (r: Self)
        ensures
            r@ == self@,
    {
        match self {
            A2AEnvelope::AgentCard(c) => A2AEnvelope::AgentCard(c.clone()),
            A2AEnvelope::Task(t) => A2AEnvelope::Task(t.clone()),
            A2AEnvelope::Ack { message_id } => A2AEnvelope::Ack {
                message_id: message_id.clone(),
            },
            A2AEnvelope::EncryptedTask { encrypted, sender_pubkey } => A2AEnvelope::EncryptedTask {
                encrypted: encrypted.clone(),
                sender_pubkey: sender_pubkey.clone(),
            },
        }
    }
}

/// Relies on `uuid::Uuid::new_v4` and its `Display` impl: a fresh random v4
/// UUID in the hyphenated textual form, which is 36 characters long.
#[verifier::external_body]
fn new_task_id() -> (r: String)
    ensures
        r@.len() == 36,
{
    uuid::Uuid::new_v4().to_string()
}

impl Task {
    /// A fresh task: new unique id, `submitted` state, a single text part.
    pub fn new(from: &str, to: &str, text: &str) -> (r: Task)
        ensures
            r@.id.len() == 36,
            r@.from == from@,
            r@.to == to@,
            r@.state == TaskState::Submitted,
            r@.message.role == "user"@,
            r@.message.parts =~= seq![PartView::Text { text: text@ }],
            r@.result is None,
    {
        let mut parts: Vec<Part> = Vec::new();
        parts.push(Part::Text { text: text.to_owned() });
        Task {
            id: new_task_id(),
            from: from.to_owned(),
            to: to.to_owned(),
            state: TaskState::Submitted,
            message: Message { role: "user".to_owned(), parts },
            result: None,
        }
    }

    /// Build the completing reply: the id is kept, `from` and `to` swap
    /// places, the state becomes `completed`, and the reply's `result` is
    /// an agent message holding `text`.
    pub fn respond(&self, text: &str) -> (r: Task)
        ensures
            r@.id == self@.id,
            r@.from == self@.to,
            r@.to == self@.from,
            r@.state == TaskState::Completed,
            r@.message == self@.message,
            r@.result == Option::Some(
                (MessageView { role: "agent"@, parts: seq![PartView::Text { text: text@ }] }),
            ),
    {
        let mut parts: Vec<Part> = Vec::new();
        parts.push(Part::Text { text: text.to_owned() });
        let r = Task {
            id: self.id.clone(),
            from: self.to.clone(),
            to: self.from.clone(),
            state: TaskState::Completed,
            message: self.message.clone(),
            result: Some(Message { role: "agent".to_owned(), parts }),
        };
        assert(r@.result->Some_0.parts =~= seq![PartView::Text { text: text@ }]);
        r
    }

    /// The text of the first part of the task's message.
    pub fn text(&self) -> (r: Option<&str>)
        ensures
            match r {
                Option::Some(s) => first_text(self@.message.parts) == Option::Some(s@),
                Option::None => first_text(self@.message.parts) is None,
            },
    {
        if self.message.parts.len() == 0 {
            None
        } else {
            match &self.message.parts[0] {
                Part::Text { text } => Some(text.as_str()),
            }
        }
    }

    /// The text of the first part of the result message, if a result is set.
    pub fn result_text(&self) -> (r: Option<&str>)
        ensures
            match r {
                Option::Some(s) => {
                    &&& self@.result is Some
                    &&& first_text(self@.result->Some_0.parts) == Option::Some(s@)
                },
                Option::None => match self@.result {
                    Option::Some(m) => first_text(m.parts) is None,
                    Option::None => true,
                },
            },
    {
        match &self.result {
            None => None,
            Some(m) => {
                if m.parts.len() == 0 {
                    None
                } else {
                    match &m.parts[0] {
                        Part::Text { text } => Some(text.as_str()),
                    }
                }
            },
        }
    }
}

} // verus!
