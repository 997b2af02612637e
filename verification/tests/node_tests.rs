//! End-to-end tests of the agent node over the in-memory transport.

use std::time::Duration;
use waku_a2a::codec::encode_envelope;
use waku_a2a::crypto::AgentIdentity;
use waku_a2a::memory::{AckingTransport, DroppingTransport, InMemoryTransport};
use waku_a2a::model::{A2AEnvelope, AgentCard, Task};
use waku_a2a::node::WakuA2ANode;
use waku_a2a::sds::publish_reliable_on;
use waku_a2a::topics;
use waku_a2a::transport::WakuTransport;

#[test]
fn test_node_creation() {
    let node = WakuA2ANode::new("test", "test agent", vec!["text".into()]);
    assert_eq!(node.card.name, "test");
    assert!(!node.pubkey().is_empty());
    assert_eq!(node.pubkey().len(), 66);
    assert!(node.identity().is_none());
    assert!(node.card.intro_bundle.is_none());
}

#[test]
fn test_encrypted_node_creation() {
    let node = WakuA2ANode::new_encrypted("test", "test agent", vec!["text".into()]);
    assert!(node.identity().is_some());
    assert!(node.card.intro_bundle.is_some());
    let bundle = node.card.intro_bundle.as_ref().unwrap();
    assert_eq!(bundle.version, "1.0");
    assert_eq!(bundle.agent_pubkey.len(), 64);
}

#[test]
fn test_announce() {
    let mut hub = InMemoryTransport::new();
    let node = WakuA2ANode::new("echo", "echo agent", vec!["text".into()]);

    node.announce(&mut hub).unwrap();

    let rx = hub.subscribe(&topics::discovery_topic()).unwrap();
    let msgs = hub.poll(rx).unwrap();
    assert_eq!(msgs.len(), 1);

    match waku_a2a::codec::decode_envelope(&msgs[0]) {
        Some(A2AEnvelope::AgentCard(card)) => {
            assert_eq!(card.name, "echo");
            assert_eq!(card.public_key, node.pubkey());
        },
        other => panic!("Expected AgentCard envelope, got {:?}", other),
    }
}

#[test]
fn test_discover() {
    let mut hub = InMemoryTransport::new();
    let other_card = AgentCard {
        name: "other".to_string(),
        description: "other agent".to_string(),
        version: "0.1.0".to_string(),
        capabilities: vec!["code".to_string()],
        public_key: "02deadbeef".to_string(),
        intro_bundle: None,
    };
    let payload = encode_envelope(&A2AEnvelope::AgentCard(other_card.clone()));
    hub.publish(&topics::discovery_topic(), &payload).unwrap();

    let node = WakuA2ANode::new("me", "my agent", vec![]);
    let cards = node.discover(&mut hub).unwrap();

    assert_eq!(cards.len(), 1);
    assert_eq!(cards[0].name, "other");
}

#[test]
fn test_poll_tasks() {
    let mut hub = InMemoryTransport::new();
    let mut node = WakuA2ANode::new("echo", "echo agent", vec!["text".into()]);

    let tasks = node.poll_tasks(&mut hub).unwrap();
    assert!(tasks.is_empty());
}

#[test]
fn test_discover_agents() {
    let mut hub = InMemoryTransport::new();

    let node_a = WakuA2ANode::new("agent-a", "Agent A", vec!["text".into()]);
    let node_b = WakuA2ANode::new("agent-b", "Agent B", vec!["text".into()]);

    // Node A announces
    node_a.announce(&mut hub).unwrap();

    // Node A never sees its own card
    let own = node_a.discover(&mut hub).unwrap();
    assert!(own.is_empty());

    // Node B discovers Node A
    let agents = node_b.discover(&mut hub).unwrap();
    assert_eq!(agents.len(), 1);
    assert_eq!(agents[0].name, "agent-a");
    assert_eq!(agents[0].public_key, node_a.pubkey());
}

#[test]
fn test_ping_pong_plaintext() {
    let mut hub = InMemoryTransport::new();

    let mut node_a = WakuA2ANode::new("agent-a", "Agent A", vec!["text".into()]);
    let mut node_b = WakuA2ANode::new("agent-b", "Agent B", vec!["text".into()]);

    // Announce both
    node_a.announce(&mut hub).unwrap();
    node_b.announce(&mut hub).unwrap();

    // Node B discovers Node A
    let agents = node_b.discover(&mut hub).unwrap();
    assert!(agents.iter().any(|a| a.name == "agent-a"));

    // Node B sends a task to Node A (directly, bypassing the ack wait)
    let task = Task::new(node_b.pubkey(), node_a.pubkey(), "Hello from B!");
    let payload = encode_envelope(&A2AEnvelope::Task(task.clone()));
    let topic = topics::task_topic(node_a.pubkey());

    // Ensure Node A is subscribed before publishing
    node_a.poll_tasks(&mut hub).unwrap();
    hub.publish(&topic, &payload).unwrap();

    // Node A receives the task
    let tasks = node_a.poll_tasks(&mut hub).unwrap();
    assert_eq!(tasks.len(), 1);
    assert_eq!(tasks[0].text(), Some("Hello from B!"));
    assert_eq!(tasks[0].from, node_b.pubkey());

    // Node B subscribes to its own topic before the reply arrives
    node_b.poll_tasks(&mut hub).unwrap();

    // Node A replies
    node_a.respond(&mut hub, &tasks[0], "Hello back from A!").unwrap();

    // Node B receives the response
    let responses = node_b.poll_tasks(&mut hub).unwrap();
    assert_eq!(responses.len(), 1);
    assert_eq!(responses[0].result_text(), Some("Hello back from A!"));
}

#[test]
fn test_ping_pong_with_sds() {
    // An acking transport stands in for the live receiver: it acknowledges
    // each delivered task, so the reliable send completes
    let mut t = AckingTransport::new(InMemoryTransport::new());

    let mut node_a = WakuA2ANode::new("agent-a", "Agent A", vec!["text".into()]);
    let node_b = WakuA2ANode::new("agent-b", "Agent B", vec!["text".into()]);

    // Ensure Node A is subscribed to its task topic before Node B sends
    node_a.poll_tasks(&mut t).unwrap();

    let task = Task::new(node_b.pubkey(), node_a.pubkey(), "Ping with SDS!");
    let acked = node_b.send_task(&mut t, &task).unwrap();
    assert!(acked);

    let tasks = node_a.poll_tasks(&mut t).unwrap();
    assert_eq!(tasks.len(), 1);
    assert_eq!(tasks[0].text(), Some("Ping with SDS!"));
    node_a.respond(&mut t, &tasks[0], "Pong!").unwrap();
}

#[test]
fn test_round_trip_within_timeout() {
    let start = std::time::Instant::now();

    let mut hub = InMemoryTransport::new();

    let mut node_a = WakuA2ANode::new("agent-a", "Agent A", vec!["text".into()]);
    let mut node_b = WakuA2ANode::new("agent-b", "Agent B", vec!["text".into()]);

    node_a.announce(&mut hub).unwrap();
    let agents = node_b.discover(&mut hub).unwrap();
    assert!(!agents.is_empty());

    // Direct task exchange (no ack wait)
    let task = Task::new(node_b.pubkey(), node_a.pubkey(), "Speed test");
    let payload = encode_envelope(&A2AEnvelope::Task(task.clone()));
    let topic = topics::task_topic(node_a.pubkey());

    node_a.poll_tasks(&mut hub).unwrap();
    node_b.poll_tasks(&mut hub).unwrap();
    hub.publish(&topic, &payload).unwrap();

    let tasks = node_a.poll_tasks(&mut hub).unwrap();
    assert_eq!(tasks.len(), 1);

    node_a.respond(&mut hub, &tasks[0], "Fast!").unwrap();

    let responses = node_b.poll_tasks(&mut hub).unwrap();
    assert_eq!(responses.len(), 1);

    let elapsed = start.elapsed();
    assert!(elapsed < Duration::from_secs(1), "Round-trip took {:?}", elapsed);
}

#[test]
fn test_encrypted_ping_pong() {
    let mut hub = InMemoryTransport::new();

    let mut node_a = WakuA2ANode::new_encrypted("agent-a", "Agent A (encrypted)", vec![
        "text".into(),
    ]);
    let mut node_b = WakuA2ANode::new_encrypted("agent-b", "Agent B (encrypted)", vec![
        "text".into(),
    ]);

    // Announce and discover
    node_a.announce(&mut hub).unwrap();
    node_b.announce(&mut hub).unwrap();

    let agents = node_b.discover(&mut hub).unwrap();
    let agent_a_card = agents.iter().find(|a| a.name == "agent-a").unwrap();
    assert!(agent_a_card.intro_bundle.is_some());

    // Node B seals a task to Node A by hand and injects it
    let task = Task::new(node_b.pubkey(), node_a.pubkey(), "Secret message!");
    let identity = node_b.identity().unwrap();
    let their_pubkey = AgentIdentity::parse_public_key(
        &agent_a_card.intro_bundle.as_ref().unwrap().agent_pubkey,
    ).unwrap();
    let session_key = identity.shared_key(&their_pubkey);
    let task_json = waku_a2a::codec::encode_task(&task);
    let encrypted = session_key.encrypt(task_json.as_bytes()).unwrap();
    let envelope = A2AEnvelope::EncryptedTask {
        encrypted,
        sender_pubkey: identity.public_key_hex(),
    };
    let payload = encode_envelope(&envelope);
    let topic = topics::task_topic(node_a.pubkey());

    node_a.poll_tasks(&mut hub).unwrap();
    node_b.poll_tasks(&mut hub).unwrap();
    hub.publish(&topic, &payload).unwrap();

    // Node A decrypts and receives
    let tasks = node_a.poll_tasks(&mut hub).unwrap();
    assert_eq!(tasks.len(), 1);
    assert_eq!(tasks[0].text(), Some("Secret message!"));

    // Node A responds, sealed to Node B
    node_a.respond_to(&mut hub, &tasks[0], "Secret reply!", Some(&node_b.card)).unwrap();

    // Node B receives the sealed response
    let responses = node_b.poll_tasks(&mut hub).unwrap();
    assert_eq!(responses.len(), 1);
    assert_eq!(responses[0].result_text(), Some("Secret reply!"));
}

#[test]
fn test_encrypted_send_produces_encrypted_envelope() {
    let mut hub = InMemoryTransport::new();

    let node_a = WakuA2ANode::new_encrypted("ping", "Ping", vec!["text".into()]);
    let node_b = WakuA2ANode::new_encrypted("pong", "Pong", vec!["text".into()]);

    // Snoop the wire: sending with the recipient's card seals the task
    let task = Task::new(node_a.pubkey(), node_b.pubkey(), "Secret");
    let _ = node_a.send_task_to(&mut hub, &task, Some(&node_b.card)).unwrap();

    let rx = hub.subscribe(&topics::task_topic(node_b.pubkey())).unwrap();
    let msgs = hub.poll(rx).unwrap();
    assert!(!msgs.is_empty());
    match waku_a2a::codec::decode_envelope(&msgs[0]) {
        Some(A2AEnvelope::EncryptedTask { .. }) => {},
        other => panic!("Expected an encrypted_task on the wire, got {:?}", other),
    }
}

#[test]
fn test_ack_retransmit() {
    // The network drops the first publish on R's task topic but delivers
    // thereafter; the acking layer acknowledges each delivered task
    let receiver_key = "02cafe";
    let topic = topics::task_topic(receiver_key);
    let acking = AckingTransport::new(InMemoryTransport::new());
    let mut t = DroppingTransport::new(acking, topic.clone(), 1);

    let task = Task::new("02beef", receiver_key, "Ping!");
    let payload = encode_envelope(&A2AEnvelope::Task(task.clone()));

    let acked = publish_reliable_on(&mut t, &topic, &payload, &task.id).unwrap();
    assert!(acked);
    // Exactly one retransmit: one drop, one delivery
    assert_eq!(t.dropped(), 1);
    assert_eq!(t.forwarded(), 1);
}

#[test]
fn test_dedup_on_receive() {
    let mut hub = InMemoryTransport::new();
    let mut node_r = WakuA2ANode::new("receiver", "R", vec!["text".into()]);

    node_r.poll_tasks(&mut hub).unwrap();

    // Inject the same task JSON twice on R's task topic
    let task = Task::new("02aaaa", node_r.pubkey(), "once only");
    let payload = encode_envelope(&A2AEnvelope::Task(task));
    let topic = topics::task_topic(node_r.pubkey());
    hub.publish(&topic, &payload).unwrap();
    hub.publish(&topic, &payload).unwrap();

    let tasks = node_r.poll_tasks(&mut hub).unwrap();
    assert_eq!(tasks.len(), 1);
}

#[test]
fn test_malformed_skip() {
    let mut hub = InMemoryTransport::new();

    // A truncated envelope followed by a valid card
    hub.publish(&topics::discovery_topic(), "{\"type\":\"agent_card\"").unwrap();
    let valid = AgentCard {
        name: "valid".to_string(),
        description: "ok".to_string(),
        version: "0.1.0".to_string(),
        capabilities: vec![],
        public_key: "02feed".to_string(),
        intro_bundle: None,
    };
    hub.publish(&topics::discovery_topic(), &encode_envelope(&A2AEnvelope::AgentCard(
        valid.clone(),
    ))).unwrap();

    let node = WakuA2ANode::new("me", "me", vec![]);
    let cards = node.discover(&mut hub).unwrap();
    assert_eq!(cards.len(), 1);
    assert_eq!(cards[0].name, "valid");
}

#[test]
fn test_from_key_is_deterministic() {
    let secret = vec![1u8; 32];
    let a = WakuA2ANode::from_key("a", "A", vec![], secret.clone()).unwrap();
    let b = WakuA2ANode::from_key("b", "B", vec![], secret).unwrap();
    assert_eq!(a.pubkey(), b.pubkey());
    assert_eq!(a.pubkey().len(), 66);
    // the zero scalar is not a valid signing key
    assert!(WakuA2ANode::from_key("z", "Z", vec![], vec![0u8; 32]).is_err());

    // boundary: the group order is rejected, the order minus one accepted
    let order: Vec<u8> = vec![
        0xff, 0xff, 0xff, 0xff, 0xff, 0xff, 0xff, 0xff, 0xff, 0xff, 0xff, 0xff, 0xff, 0xff,
        0xff, 0xfe, 0xba, 0xae, 0xdc, 0xe6, 0xaf, 0x48, 0xa0, 0x3b, 0xbf, 0xd2, 0x5e, 0x8c,
        0xd0, 0x36, 0x41, 0x41,
    ];
    assert!(WakuA2ANode::from_key("n", "N", vec![], order.clone()).is_err());
    let mut below = order;
    below[31] = 0x40;
    assert!(WakuA2ANode::from_key("m", "M", vec![], below).is_ok());
    // wrong lengths are rejected
    assert!(WakuA2ANode::from_key("s", "S", vec![], vec![1u8; 31]).is_err());
}

#[test]
fn test_ack_retransmit_at_retry_budget() {
    // Dropping exactly MAX_RETRIES publishes still succeeds on the last
    // attempt; dropping one more exhausts the budget
    let receiver_key = "02cafe";
    let topic = topics::task_topic(receiver_key);

    let acking = AckingTransport::new(InMemoryTransport::new());
    let mut t = DroppingTransport::new(acking, topic.clone(), waku_a2a::sds::MAX_RETRIES as usize);
    let task = Task::new("02beef", receiver_key, "Ping!");
    let payload = encode_envelope(&A2AEnvelope::Task(task.clone()));
    let acked = publish_reliable_on(&mut t, &topic, &payload, &task.id).unwrap();
    assert!(acked);
    assert_eq!(t.dropped(), waku_a2a::sds::MAX_RETRIES as usize);
    assert_eq!(t.forwarded(), 1);

    let acking = AckingTransport::new(InMemoryTransport::new());
    let mut t = DroppingTransport::new(acking, topic.clone(), waku_a2a::sds::MAX_RETRIES as usize
        + 1);
    let task = Task::new("02beef", receiver_key, "Ping again!");
    let payload = encode_envelope(&A2AEnvelope::Task(task.clone()));
    let acked = publish_reliable_on(&mut t, &topic, &payload, &task.id).unwrap();
    assert!(!acked);
    assert_eq!(t.forwarded(), 0);
}
