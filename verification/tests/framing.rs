//! Length-prefixed messages.

use ghostport::framing::{frame, message_len, MAX_MESSAGE_LEN};

fn split(bytes: &[u8]) -> (&[u8], &[u8]) {
    let n = message_len([bytes[0], bytes[1], bytes[2], bytes[3]]).unwrap() as usize;
    (&bytes[4..4 + n], &bytes[4 + n..])
}

#[test]
fn a_message_is_received_as_it_was_sent() {
    let bytes = frame(b"{\"a\":42,\"b\":\"hello\"}");
    assert_eq!(bytes[..4], [20, 0, 0, 0]);
    let (message, rest) = split(&bytes);
    assert_eq!(message, b"{\"a\":42,\"b\":\"hello\"}");
    assert!(rest.is_empty());
}

#[test]
fn oversized_length_prefix_is_rejected_without_allocating() {
    let len = MAX_MESSAGE_LEN + 1;
    assert!(message_len(len.to_le_bytes()).is_err());
    assert_eq!(message_len(MAX_MESSAGE_LEN.to_le_bytes()).unwrap(), MAX_MESSAGE_LEN);
}

#[test]
fn two_messages_in_sequence_dont_interfere() {
    let mut wire = frame(b"one");
    wire.extend(frame(b"two!"));
    let (first, rest) = split(&wire);
    assert_eq!(first, b"one");
    let (second, rest) = split(rest);
    assert_eq!(second, b"two!");
    assert!(rest.is_empty());
}
