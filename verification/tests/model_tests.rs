//! Tests for the data model, the topic helpers and the wire codec.

use waku_a2a::codec::{decode_envelope, decode_task, encode_envelope, encode_task};
use waku_a2a::model::{A2AEnvelope, AgentCard, EncryptedPayload, IntroBundle, Message, Part, Task,
    TaskState};
use waku_a2a::topics;

fn sample_card(bundle: Option<IntroBundle>) -> AgentCard {
    AgentCard {
        name: "echo".to_string(),
        description: "Echoes messages".to_string(),
        version: "0.1.0".to_string(),
        capabilities: vec!["text".to_string()],
        public_key: "02abcdef".to_string(),
        intro_bundle: bundle,
    }
}

#[test]
fn test_task_creation() {
    let task = Task::new("02aabb", "03ccdd", "Hello agent");
    assert_eq!(task.from, "02aabb");
    assert_eq!(task.to, "03ccdd");
    assert_eq!(task.state, TaskState::Submitted);
    assert_eq!(task.text(), Some("Hello agent"));
    assert!(task.result.is_none());
    assert!(!task.id.is_empty());
}

#[test]
fn test_task_respond() {
    let task = Task::new("02aabb", "03ccdd", "Hello");
    let response = task.respond("Echo: Hello");
    assert_eq!(response.id, task.id);
    assert_eq!(response.from, "03ccdd");
    assert_eq!(response.to, "02aabb");
    assert_eq!(response.state, TaskState::Completed);
    assert_eq!(response.result_text(), Some("Echo: Hello"));
}

#[test]
fn test_agent_card_serialization() {
    let card = sample_card(None);
    let json = encode_envelope(&A2AEnvelope::AgentCard(card.clone()));
    let deserialized = decode_envelope(&json).unwrap();
    assert_eq!(A2AEnvelope::AgentCard(card), deserialized);
    // intro_bundle should be absent when None
    assert!(!json.contains("intro_bundle"));
}

#[test]
fn test_agent_card_with_intro_bundle() {
    let card = sample_card(Some(IntroBundle::new("aabbccdd")));
    let json = encode_envelope(&A2AEnvelope::AgentCard(card.clone()));
    let deserialized = decode_envelope(&json).unwrap();
    assert_eq!(A2AEnvelope::AgentCard(card), deserialized);
    assert!(json.contains("intro_bundle"));
}

#[test]
fn test_envelope_serialization() {
    let task = Task::new("02aa", "03bb", "test");
    let envelope = A2AEnvelope::Task(task.clone());
    let json = encode_envelope(&envelope);
    let deserialized = decode_envelope(&json).unwrap();
    assert_eq!(envelope, deserialized);

    let ack = A2AEnvelope::Ack { message_id: "abc-123".to_string() };
    let json = encode_envelope(&ack);
    assert!(json.contains("ack"));
    let deserialized = decode_envelope(&json).unwrap();
    assert_eq!(ack, deserialized);
}

#[test]
fn test_encrypted_task_envelope_serialization() {
    let envelope = A2AEnvelope::EncryptedTask {
        encrypted: EncryptedPayload {
            nonce: "dGVzdG5vbmNl".to_string(),
            ciphertext: "Y2lwaGVydGV4dA==".to_string(),
        },
        sender_pubkey: "aabbccdd".to_string(),
    };
    let json = encode_envelope(&envelope);
    let deserialized = decode_envelope(&json).unwrap();
    assert_eq!(envelope, deserialized);
    assert!(json.contains("encrypted_task"));
}

#[test]
fn test_task_state_serialization() {
    let states = vec![
        (TaskState::Submitted, "\"submitted\""),
        (TaskState::Working, "\"working\""),
        (TaskState::InputRequired, "\"input_required\""),
        (TaskState::Completed, "\"completed\""),
        (TaskState::Failed, "\"failed\""),
        (TaskState::Cancelled, "\"cancelled\""),
    ];
    for (state, expected) in states {
        let mut task = Task::new("02aa", "03bb", "test");
        task.state = state;
        let json = encode_task(&task);
        assert!(json.contains(&format!("\"state\":{}", expected)));
    }
}

#[test]
fn test_topics() {
    assert_eq!(topics::discovery_topic(), "/waku-a2a/1/discovery/proto");
    assert_eq!(topics::task_topic("02abcdef"), "/waku-a2a/1/task/02abcdef/proto");
    assert_eq!(topics::ack_topic("msg-123"), "/waku-a2a/1/ack/msg-123/proto");
}

#[test]
fn test_backward_compat_agent_card_without_intro_bundle() {
    // JSON without an intro_bundle field decodes with intro_bundle = None
    let json = r#"{"type":"agent_card","name":"echo","description":"Echoes","version":"0.1.0","capabilities":["text"],"public_key":"02abcdef"}"#;
    let card = match decode_envelope(json) {
        Some(A2AEnvelope::AgentCard(card)) => card,
        other => panic!("expected an agent card, got {:?}", other),
    };
    assert_eq!(card.name, "echo");
    assert!(card.intro_bundle.is_none());
}

#[test]
fn intro_bundle_serialization() {
    let bundle = IntroBundle::new("aabbccdd");
    let card = sample_card(Some(bundle.clone()));
    let json = encode_envelope(&A2AEnvelope::AgentCard(card));
    assert!(json.contains("aabbccdd"));
    assert!(json.contains("1.0"));
    match decode_envelope(&json) {
        Some(A2AEnvelope::AgentCard(card)) => assert_eq!(card.intro_bundle, Some(bundle)),
        other => panic!("expected an agent card, got {:?}", other),
    }
}

#[test]
fn test_agent_card_json_roundtrip() {
    let card = AgentCard {
        name: "test-agent".to_string(),
        description: "A test agent".to_string(),
        version: "0.1.0".to_string(),
        capabilities: vec!["text".to_string(), "code".to_string()],
        public_key: "02abcdef1234".to_string(),
        intro_bundle: None,
    };
    let json = encode_envelope(&A2AEnvelope::AgentCard(card.clone()));
    match decode_envelope(&json) {
        Some(A2AEnvelope::AgentCard(parsed)) => assert_eq!(card, parsed),
        other => panic!("expected an agent card, got {:?}", other),
    }
}

#[test]
fn test_task_json_roundtrip() {
    let task = Task::new("02aabb", "03ccdd", "Hello");
    let json = encode_task(&task);
    let parsed = decode_task(&json).unwrap();
    assert_eq!(task.from, parsed.from);
    assert_eq!(task.to, parsed.to);
    assert_eq!(task.text(), parsed.text());
    assert_eq!(task.state, TaskState::Submitted);
}

#[test]
fn test_envelope_task_json() {
    let task = Task::new("02aa", "03bb", "test");
    let envelope = A2AEnvelope::Task(task);
    let json = encode_envelope(&envelope);
    let parsed = decode_envelope(&json).unwrap();
    assert_eq!(envelope, parsed);
}

#[test]
fn test_message_parts_json() {
    let msg = Message {
        role: "user".to_string(),
        parts: vec![Part::Text { text: "Hello world".to_string() }],
    };
    let mut task = Task::new("02aa", "03bb", "placeholder");
    task.message = msg.clone();
    let json = encode_task(&task);
    let parsed = decode_task(&json).unwrap();
    assert_eq!(msg, parsed.message);
}

#[test]
fn test_codec_agrees_with_reference_json_parser() {
    // The canonical encoding must be plain JSON: a reference parser reads the
    // same fields back.
    let card = sample_card(Some(IntroBundle::new("aabbccdd")));
    let json = encode_envelope(&A2AEnvelope::AgentCard(card));
    let v: serde_json::Value = serde_json::from_str(&json).unwrap();
    assert_eq!(v["type"], "agent_card");
    assert_eq!(v["name"], "echo");
    assert_eq!(v["capabilities"][0], "text");
    assert_eq!(v["public_key"], "02abcdef");
    assert_eq!(v["intro_bundle"]["agent_pubkey"], "aabbccdd");

    let task = Task::new("02aa", "03bb", "quote \"this\" and\nnewline");
    let tj = encode_envelope(&A2AEnvelope::Task(task.clone()));
    let tv: serde_json::Value = serde_json::from_str(&tj).unwrap();
    assert_eq!(tv["type"], "task");
    assert_eq!(tv["id"], task.id.as_str());
    assert_eq!(tv["state"], "submitted");
    assert_eq!(tv["message"]["parts"][0]["text"], "quote \"this\" and\nnewline");
}

#[test]
fn task_ids_are_unique() {
    let t1 = Task::new("02aa", "03bb", "x");
    let t2 = Task::new("02aa", "03bb", "x");
    assert_eq!(t1.id.len(), 36);
    assert_ne!(t1.id, t2.id);
}
