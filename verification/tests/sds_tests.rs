//! Tests for the reliability layer: acks, reliable publish, deduplication.

use waku_a2a::codec::encode_envelope;
use waku_a2a::memory::InMemoryTransport;
use waku_a2a::model::A2AEnvelope;
use waku_a2a::sds::SdsTransport;
use waku_a2a::transport::WakuTransport;

#[test]
fn test_deduplication() {
    let transport = InMemoryTransport::new();
    let mut sds = SdsTransport::new(transport);

    assert!(!sds.is_duplicate("msg-1"));
    sds.mark_seen("msg-1");
    assert!(sds.is_duplicate("msg-1"));
    assert!(!sds.is_duplicate("msg-2"));
}

#[test]
fn test_send_ack() {
    let transport = InMemoryTransport::new();
    let mut sds = SdsTransport::new(transport);

    let rx = sds.inner_mut().subscribe("/waku-a2a/1/ack/task-123/proto").unwrap();
    sds.send_ack("task-123").unwrap();

    let msgs = sds.inner_mut().poll(rx).unwrap();
    assert_eq!(msgs.len(), 1);
    let val: serde_json::Value = serde_json::from_str(&msgs[0]).unwrap();
    assert_eq!(val["message_id"], "task-123");
    assert_eq!(val["type"], "ack");
}

#[test]
fn test_publish_reliable_with_ack() {
    let mut transport = InMemoryTransport::new();
    // Pre-inject an ack; the ack subscription replays history, so the first
    // attempt finds it
    let ack_payload = encode_envelope(&A2AEnvelope::Ack { message_id: "msg-1".to_string() });
    transport.publish("/waku-a2a/1/ack/msg-1/proto", &ack_payload).unwrap();

    let mut sds = SdsTransport::new(transport);

    let acked = sds.publish_reliable("/waku-a2a/1/task/somepubkey/proto", "hello", "msg-1")
        .unwrap();
    assert!(acked);
}

#[test]
fn test_publish_reliable_without_ack() {
    let transport = InMemoryTransport::new();
    let mut sds = SdsTransport::new(transport);

    let acked = sds.publish_reliable("/waku-a2a/1/task/somepubkey/proto", "hello", "msg-2")
        .unwrap();
    assert!(!acked);
    // All four attempts were published
    let rx = sds.inner_mut().subscribe("/waku-a2a/1/task/somepubkey/proto").unwrap();
    assert_eq!(sds.inner_mut().poll(rx).unwrap().len(), 4);
}

#[test]
fn test_poll_dedup() {
    let mut transport = InMemoryTransport::new();

    // Inject the same message twice
    let msg = r#"{"id":"task-1","data":"hello"}"#;
    transport.publish("topic-a", msg).unwrap();
    transport.publish("topic-a", msg).unwrap();

    let mut sds = SdsTransport::new(transport);

    let rx = sds.inner_mut().subscribe("topic-a").unwrap();
    let raw = sds.inner_mut().poll(rx).unwrap();
    let result = sds.filter_dedup(raw);
    // The second copy is deduplicated
    assert_eq!(result.len(), 1);
}
