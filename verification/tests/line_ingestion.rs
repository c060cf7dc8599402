use acars_router::framing::LineFramer;
use acars_router::helper_functions::{should_start_service, strip_line_endings};
use acars_router::message::Message;
use acars_router::queue::{BoundedQueue, SendError};
use acars_router::tcp_receiver_server::{
    ingest_line, parse_line, LineError, LineOutcome, TCPReceiverServer,
};
use serde_json::{Number, Value};

fn object_a(n: u64) -> Message {
    let mut map = serde_json::Map::new();
    map.insert("a".to_string(), Value::Number(Number::from(n)));
    Message::new(Value::Object(map))
}

fn server() -> TCPReceiverServer {
    TCPReceiverServer {
        host: "127.0.0.1:15550".to_string(),
        proto_name: "ACARS".to_string(),
    }
}

#[test]
fn line_framing_yields_two_messages_without_carriage_return() {
    let mut channel = BoundedQueue::new(32);
    let outcomes = server().run(b"{\"a\":1}\n{\"a\":2}\r\n", &mut channel);
    assert_eq!(outcomes.len(), 2);
    assert!(matches!(outcomes[0], LineOutcome::Forwarded));
    assert!(matches!(outcomes[1], LineOutcome::Forwarded));
    assert_eq!(channel.len(), 2);
    let first = channel.recv().unwrap();
    let second = channel.recv().unwrap();
    assert_eq!(first, object_a(1));
    assert_eq!(second, object_a(2));
    assert_eq!(second.serialize().unwrap(), b"{\"a\":2}".to_vec());
    assert_eq!(channel.recv(), None);
}

#[test]
fn malformed_line_is_skipped_and_ingestion_continues() {
    let mut channel = BoundedQueue::new(32);
    let outcomes = server().run(b"not-json\n{\"a\":1}\n", &mut channel);
    assert_eq!(outcomes.len(), 2);
    match &outcomes[0] {
        LineOutcome::Rejected(LineError::Malformed(e)) => assert!(!e.description().is_empty()),
        other => panic!("unexpected outcome {:?}", other),
    }
    assert!(matches!(outcomes[1], LineOutcome::Forwarded));
    assert_eq!(channel.len(), 1);
    assert_eq!(channel.recv(), Some(object_a(1)));
}

#[test]
fn stream_fed_in_pieces_gives_the_same_messages() {
    let whole: &[u8] = b"{\"a\":1}\n{\"a\":2}\r\n{\"a\":3}\n";
    for cut in 0..=whole.len() {
        let receiver = server();
        let mut framer = LineFramer::new();
        let mut channel = BoundedQueue::new(32);
        let mut outcomes = receiver.receive(&mut framer, &whole[..cut], &mut channel);
        outcomes.extend(receiver.receive(&mut framer, &whole[cut..], &mut channel));
        assert_eq!(outcomes.len(), 3);
        assert_eq!(framer.pending_len(), 0);
        assert_eq!(channel.recv(), Some(object_a(1)));
        assert_eq!(channel.recv(), Some(object_a(2)));
        assert_eq!(channel.recv(), Some(object_a(3)));
        assert_eq!(channel.recv(), None);
    }
}

#[test]
fn framer_hands_out_raw_lines_and_keeps_the_rest() {
    let mut framer = LineFramer::new();
    assert_eq!(framer.feed(b"ab"), Vec::<Vec<u8>>::new());
    assert_eq!(framer.pending_len(), 2);
    assert_eq!(framer.feed(b"c\r\n\nde"), vec![b"abc\r".to_vec(), Vec::new()]);
    assert_eq!(framer.pending_len(), 2);
    assert_eq!(framer.finish(), Some(b"de".to_vec()));
    assert_eq!(framer.pending_len(), 0);
    assert_eq!(framer.finish(), None);
}

#[test]
fn unterminated_last_line_counts_at_the_end_of_the_stream() {
    let mut channel = BoundedQueue::new(32);
    let outcomes = server().run(b"{\"a\":1}\n{\"a\":2}", &mut channel);
    assert_eq!(outcomes.len(), 2);
    assert_eq!(channel.recv(), Some(object_a(1)));
    assert_eq!(channel.recv(), Some(object_a(2)));
}

#[test]
fn trailing_artifacts_alone_are_no_line() {
    let mut channel = BoundedQueue::new(32);
    let outcomes = server().run(b"{\"a\":1}\n\r\r", &mut channel);
    assert_eq!(outcomes.len(), 1);
    assert_eq!(channel.len(), 1);
    let none = server().run(b"", &mut channel);
    assert!(none.is_empty());
}

#[test]
fn empty_line_is_malformed() {
    let mut channel = BoundedQueue::new(32);
    let outcomes = server().run(b"\n\r\n{\"a\":7}\n", &mut channel);
    assert_eq!(outcomes.len(), 3);
    assert!(matches!(outcomes[0], LineOutcome::Rejected(LineError::Malformed(_))));
    assert!(matches!(outcomes[1], LineOutcome::Rejected(LineError::Malformed(_))));
    assert!(matches!(outcomes[2], LineOutcome::Forwarded));
    assert_eq!(channel.recv(), Some(object_a(7)));
}

#[test]
fn line_that_is_not_utf8_is_skipped() {
    let mut channel = BoundedQueue::new(32);
    let outcomes = server().run(b"{\"a\":\"\xff\"}\n{\"a\":1}\n", &mut channel);
    assert_eq!(outcomes.len(), 2);
    assert!(matches!(outcomes[0], LineOutcome::Rejected(LineError::InvalidUtf8)));
    assert!(matches!(outcomes[1], LineOutcome::Forwarded));
    assert_eq!(channel.recv(), Some(object_a(1)));
    assert!(matches!(parse_line(b"\xc3\x28"), Err(LineError::InvalidUtf8)));
}

#[test]
fn multibyte_text_is_read_as_utf8() {
    let parsed = parse_line("{\"a\":\"\u{e9}\u{4e2d}\"}\r".as_bytes()).unwrap();
    let mut map = serde_json::Map::new();
    map.insert("a".to_string(), Value::String("\u{e9}\u{4e2d}".to_string()));
    assert_eq!(parsed, Message::new(Value::Object(map)));
}

#[test]
fn message_is_dropped_when_the_queue_is_full_or_closed() {
    let mut channel = BoundedQueue::new(1);
    let outcomes = server().run(b"{\"a\":1}\n{\"a\":2}\nx\n", &mut channel);
    assert_eq!(outcomes.len(), 3);
    assert!(matches!(outcomes[0], LineOutcome::Forwarded));
    assert!(matches!(outcomes[1], LineOutcome::Dropped(SendError::Full)));
    assert!(matches!(outcomes[2], LineOutcome::Rejected(LineError::Malformed(_))));
    assert_eq!(channel.len(), 1);
    assert_eq!(channel.recv(), Some(object_a(1)));
    channel.close();
    assert!(matches!(
        ingest_line(b"{\"a\":3}", &mut channel),
        LineOutcome::Dropped(SendError::Closed)
    ));
    assert!(channel.is_empty());
}

#[test]
fn strip_line_endings_cuts_every_trailing_artifact() {
    assert_eq!(strip_line_endings(b"abc\r\n"), b"abc");
    assert_eq!(strip_line_endings(b"abc\n"), b"abc");
    assert_eq!(strip_line_endings(b"abc\r\r\n\n"), b"abc");
    assert_eq!(strip_line_endings(b"a\rb\nc"), b"a\rb\nc");
    assert_eq!(strip_line_endings(b"\r\n"), b"");
    assert_eq!(strip_line_endings(b""), b"");
}

#[test]
fn service_starts_only_for_a_list_with_entries() {
    assert!(!should_start_service(&Vec::new()));
    assert!(should_start_service(&vec!["5550".to_string()]));
    assert!(should_start_service(&vec!["a".to_string(), "b".to_string()]));
}

#[test]
fn surrounding_whitespace_is_accepted_and_trailing_text_is_not() {
    assert_eq!(parse_line(b"  {\"a\":1}  ").unwrap(), object_a(1));
    assert!(matches!(parse_line(b"{\"a\":1} x"), Err(LineError::Malformed(_))));
    assert!(matches!(parse_line(b"{\"a\":1}{\"a\":2}"), Err(LineError::Malformed(_))));
}
