use orderbook_stream::envelope::{
    check_message_type, is_message_type, payload, payload_bounds, MessageKind, PAYLOAD_GAP,
    TAG_OFFSET, TRAILER_LEN,
};
use orderbook_stream::error::DecodeError;

/// A message as the stream frames it: fifteen bytes, the tag, a quote and
/// thirty-five more bytes, the payload, two closing bytes.
fn message(tag: &str, payload: &str) -> Vec<u8> {
    let mut m = Vec::new();
    m.extend_from_slice(b"{\"messageTyp\":\"");
    m.extend_from_slice(tag.as_bytes());
    m.extend_from_slice(b"\",\"id\":\"0123456789abcdef012\",\"data\":");
    m.extend_from_slice(payload.as_bytes());
    m.extend_from_slice(b"}}");
    m
}

#[test]
fn helper_message_has_the_fixed_layout() {
    let m = message("orderBook", "[]");
    assert_eq!(m.len(), TAG_OFFSET + 9 + PAYLOAD_GAP + 2 + TRAILER_LEN);
    assert_eq!(&m[15..24], b"orderBook");
    assert_eq!(m[24], b'"');
    assert_eq!(&m[15 + 9 + 36..m.len() - 2], b"[]");
}

#[test]
fn snapshot_tag_is_recognized() {
    let m = message("orderBook", "[]");
    assert!(is_message_type(&m, b"orderBook"));
    assert!(!is_message_type(&m, b"completedOrders"));
}

#[test]
fn delta_tag_is_not_taken_for_snapshot_tag() {
    let m = message("orderBookDelta", "[]");
    assert!(!is_message_type(&m, b"orderBook"));
    assert!(is_message_type(&m, b"orderBookDelta"));
    let c = message("completedOrdersDelta", "[]");
    assert!(!is_message_type(&c, b"completedOrders"));
    assert!(is_message_type(&c, b"completedOrdersDelta"));
}

#[test]
fn tag_must_be_followed_by_a_quote() {
    let mut m = message("orderBook", "[]");
    m[24] = b'x';
    assert!(!is_message_type(&m, b"orderBook"));
}

#[test]
fn tag_is_compared_byte_by_byte() {
    let m = message("orderBoom", "[]");
    assert!(!is_message_type(&m, b"orderBook"));
    let n = message("OrderBook", "[]");
    assert!(!is_message_type(&n, b"orderBook"));
}

#[test]
fn empty_tag_matches_a_quote_at_the_offset() {
    let mut m = vec![b' '; 16];
    m[15] = b'"';
    assert!(is_message_type(&m, b""));
    m[15] = b'a';
    assert!(!is_message_type(&m, b""));
}

#[test]
fn checked_classification_fails_on_short_messages() {
    let m = message("orderBook", "[]");
    assert_eq!(check_message_type(&m, b"orderBook"), Ok(true));
    assert_eq!(check_message_type(&m, b"orderBookDelta"), Ok(false));
    // exactly the tag, without room for the quote
    assert_eq!(check_message_type(&m[..24], b"orderBook"), Err(DecodeError::MessageTooShort));
    // the tag and the quote
    assert_eq!(check_message_type(&m[..25], b"orderBook"), Ok(true));
    assert_eq!(check_message_type(b"", b"orderBook"), Err(DecodeError::MessageTooShort));
    assert_eq!(check_message_type(&m[..15], b""), Err(DecodeError::MessageTooShort));
}

#[test]
fn payload_bounds_follow_the_fixed_offsets() {
    assert_eq!(payload_bounds(100, 9), Ok((60, 98)));
    assert_eq!(payload_bounds(100, 20), Ok((71, 98)));
    // an empty payload is still a payload
    assert_eq!(payload_bounds(62, 9), Ok((60, 60)));
    assert_eq!(payload_bounds(61, 9), Err(DecodeError::PayloadOutOfBounds));
    assert_eq!(payload_bounds(0, 0), Err(DecodeError::PayloadOutOfBounds));
    assert_eq!(payload_bounds(1, 0), Err(DecodeError::PayloadOutOfBounds));
    assert_eq!(payload_bounds(usize::MAX, usize::MAX), Err(DecodeError::PayloadOutOfBounds));
    assert_eq!(payload_bounds(usize::MAX, 0), Ok((51, usize::MAX - 2)));
}

#[test]
fn payload_is_cut_out_of_the_message() {
    let body = "[{\"quantity\":\"2\",\"price\":\"100.5\",\"orderType\":\"buy\"}]";
    let m = message("orderBook", body);
    assert_eq!(payload(&m, MessageKind::OrderBook), Ok(body.as_bytes()));
    let d = message("completedOrdersDelta", "[]");
    assert_eq!(payload(&d, MessageKind::CompletedOrdersDelta), Ok(&b"[]"[..]));
    assert_eq!(
        payload(&m[..40], MessageKind::OrderBook),
        Err(DecodeError::PayloadOutOfBounds)
    );
}

#[test]
fn each_kind_has_its_tag() {
    assert_eq!(MessageKind::OrderBook.tag_bytes(), b"orderBook");
    assert_eq!(MessageKind::CompletedOrders.tag_bytes(), b"completedOrders");
    assert_eq!(MessageKind::OrderBookDelta.tag_bytes(), b"orderBookDelta");
    assert_eq!(MessageKind::CompletedOrdersDelta.tag_bytes(), b"completedOrdersDelta");
}

#[test]
fn a_message_has_one_kind_at_most() {
    let kinds = [
        MessageKind::OrderBook,
        MessageKind::CompletedOrders,
        MessageKind::OrderBookDelta,
        MessageKind::CompletedOrdersDelta,
    ];
    for sent in kinds {
        let tag = String::from_utf8(sent.tag_bytes().to_vec()).unwrap();
        let m = message(&tag, "[]");
        for asked in kinds {
            assert_eq!(is_message_type(&m, asked.tag_bytes()), sent == asked);
        }
    }
}
