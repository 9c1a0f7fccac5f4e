use relay::message::tag_message;
use relay::message::u32_to_string;

#[test]
fn renders_small_and_large_numbers() {
    assert_eq!(u32_to_string(0), "0");
    assert_eq!(u32_to_string(7), "7");
    assert_eq!(u32_to_string(10), "10");
    assert_eq!(u32_to_string(1300), "1300");
    assert_eq!(u32_to_string(4294967295), "4294967295");
}

#[test]
fn tags_payload_with_sender_id() {
    assert_eq!(tag_message(1, b"hi"), "[1] hi");
    assert_eq!(tag_message(42, b"hello world"), "[42] hello world");
}

#[test]
fn tags_empty_payload() {
    assert_eq!(tag_message(3, b""), "[3] ");
}

#[test]
fn invalid_utf8_is_replaced_not_dropped() {
    let tagged = tag_message(1, &[0xff, 0xfe, b'a']);
    assert_eq!(tagged, "[1] \u{fffd}\u{fffd}a");
}

#[test]
fn truncated_utf8_sequence_is_replaced() {
    // The first two bytes of a three-byte encoding, cut short.
    let tagged = tag_message(2, &[0xe2, 0x82]);
    assert_eq!(tagged, "[2] \u{fffd}");
}

#[test]
fn valid_utf8_passes_through_unchanged() {
    let tagged = tag_message(5, "héllo ✓".as_bytes());
    assert_eq!(tagged, "[5] héllo ✓");
}
