//! Tests for the byte encodings and the in-memory transport.

use waku_a2a::encoding::{base64_decode, base64_encode, encode_topic};
use waku_a2a::rest::{filter_poll_entries, PollEntry};
use waku_a2a::memory::InMemoryTransport;
use waku_a2a::transport::WakuTransport;

#[test]
fn test_base64_roundtrip() {
    let data = b"Hello, Waku!";
    let encoded = base64_encode(data);
    let decoded = base64_decode(&encoded).unwrap();
    assert_eq!(decoded, data);
}

#[test]
fn test_base64_empty() {
    assert_eq!(base64_encode(b""), "");
    assert_eq!(base64_decode("").unwrap(), Vec::<u8>::new());
}

#[test]
fn test_base64_padding() {
    // 1 byte -> 4 chars with ==
    let encoded = base64_encode(b"a");
    assert!(encoded.ends_with("=="));
    let decoded = base64_decode(&encoded).unwrap();
    assert_eq!(decoded, b"a");

    // 2 bytes -> 4 chars with =
    let encoded = base64_encode(b"ab");
    assert!(encoded.ends_with('=') && !encoded.ends_with("=="));
    let decoded = base64_decode(&encoded).unwrap();
    assert_eq!(decoded, b"ab");
}

#[test]
fn test_base64_agrees_with_reference() {
    let samples: Vec<&[u8]> = vec![b"", b"f", b"fo", b"foo", b"foob", b"fooba", b"foobar"];
    for data in samples {
        let mine = base64_encode(data);
        let reference = base64::Engine::encode(&base64::engine::general_purpose::STANDARD, data);
        assert_eq!(mine, reference);
    }
}

#[test]
fn test_encode_topic() {
    assert_eq!(encode_topic("/waku/2/default-waku/proto"), "%2Fwaku%2F2%2Fdefault-waku%2Fproto");
}

#[test]
fn test_publish_subscribe() {
    let mut transport = InMemoryTransport::new();
    let rx = transport.subscribe("topic-a").unwrap();
    transport.publish("topic-a", "hello").unwrap();

    let msgs = transport.poll(rx).unwrap();
    assert_eq!(msgs, vec!["hello".to_string()]);
}

#[test]
fn test_history_replay() {
    let mut transport = InMemoryTransport::new();
    // Publish BEFORE subscribing
    transport.publish("topic-a", "msg1").unwrap();
    transport.publish("topic-a", "msg2").unwrap();

    // A new subscription sees the history
    let rx = transport.subscribe("topic-a").unwrap();
    let msgs = transport.poll(rx).unwrap();
    assert_eq!(msgs, vec!["msg1".to_string(), "msg2".to_string()]);
}

#[test]
fn test_multiple_subscribers() {
    let mut transport = InMemoryTransport::new();
    let rx1 = transport.subscribe("topic-a").unwrap();
    let rx2 = transport.subscribe("topic-a").unwrap();

    transport.publish("topic-a", "broadcast").unwrap();

    assert_eq!(transport.poll(rx1).unwrap(), vec!["broadcast".to_string()]);
    assert_eq!(transport.poll(rx2).unwrap(), vec!["broadcast".to_string()]);
}

#[test]
fn test_shared_transport() {
    // One hub shared by a subscriber and a publisher
    let mut hub = InMemoryTransport::new();
    let rx = hub.subscribe("topic-a").unwrap();
    hub.publish("topic-a", "from t2").unwrap();

    assert_eq!(hub.poll(rx).unwrap(), vec!["from t2".to_string()]);
}

#[test]
fn test_unsubscribe() {
    let mut transport = InMemoryTransport::new();
    let rx = transport.subscribe("topic-a").unwrap();
    transport.unsubscribe("topic-a").unwrap();

    // Publishing after unsubscribe must not fail; the dropped subscription
    // no longer polls
    transport.publish("topic-a", "hello").unwrap();
    assert!(transport.poll(rx).is_err());
}

#[test]
fn test_topic_isolation() {
    let mut transport = InMemoryTransport::new();
    let rx_a = transport.subscribe("topic-a").unwrap();
    let rx_b = transport.subscribe("topic-b").unwrap();

    transport.publish("topic-a", "only-a").unwrap();

    assert_eq!(transport.poll(rx_a).unwrap(), vec!["only-a".to_string()]);
    // topic-b has nothing
    assert_eq!(transport.poll(rx_b).unwrap(), Vec::<String>::new());
}

#[test]
fn test_poll_entry_filtering() {
    let entries = vec![
        PollEntry {
            content_topic: Some("/a".to_string()),
            payload: base64_encode(b"hello"),
        },
        PollEntry {
            content_topic: Some("/b".to_string()),
            payload: base64_encode(b"other"),
        },
        PollEntry { content_topic: None, payload: base64_encode(b"untagged") },
        // bytes that are not text are skipped as malformed
        PollEntry {
            content_topic: Some("/a".to_string()),
            payload: base64_encode(&[0xff, 0xfe]),
        },
    ];
    let got = filter_poll_entries(&entries, "/a");
    assert_eq!(got, vec!["hello".to_string(), "untagged".to_string()]);
}
