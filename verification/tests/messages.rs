use greeter::headers::is_well_framed;
use greeter::hello::{grpc_message, HelloReply, HelloRequest};
use greeter::protobuf::{read_text_message, text_message_size, write_text_message};

#[test]
fn a_message_has_a_tag_a_length_and_a_text() {
    let mut out = vec![1u8];
    write_text_message(&mut out, "Joe");
    assert_eq!(out, vec![1, 0x0a, 3, b'J', b'o', b'e']);
    assert_eq!(text_message_size("Joe"), 5);
}

#[test]
fn an_empty_text_is_left_out() {
    let mut out = Vec::new();
    write_text_message(&mut out, "");
    assert!(out.is_empty());
    assert_eq!(text_message_size(""), 0);
    assert_eq!(read_text_message(&[]), Some(String::new()));
}

#[test]
fn a_text_is_read_back() {
    let long = "x\u{e9}\u{1f600}".repeat(100);
    for text in ["Joe", "", "\u{4e16}\u{754c}", long.as_str()] {
        let mut out = Vec::new();
        write_text_message(&mut out, text);
        assert_eq!(out.len(), text_message_size(text));
        assert_eq!(read_text_message(&out), Some(text.to_string()));
    }
}

#[test]
fn a_long_text_has_a_long_length() {
    let text = "a".repeat(300);
    let mut out = Vec::new();
    write_text_message(&mut out, &text);
    assert_eq!(&out[..3], &[0x0a, 0xac, 0x02]);
    assert_eq!(out.len(), 303);
}

#[test]
fn other_fields_are_passed_over() {
    // A varint, a text, eight bytes, a string and four bytes.
    let bytes = vec![
        0x10, 0x96, 0x01, 0x0a, 2, b'h', b'i', 0x19, 1, 2, 3, 4, 5, 6, 7, 8, 0x22, 1, b'z', 0x2d, 1, 2, 3, 4,
    ];
    assert_eq!(read_text_message(&bytes), Some("hi".to_string()));
}

#[test]
fn the_last_text_counts() {
    let bytes = vec![0x0a, 1, b'a', 0x0a, 2, b'b', b'c'];
    assert_eq!(read_text_message(&bytes), Some("bc".to_string()));
}

#[test]
fn broken_messages_are_refused() {
    assert_eq!(read_text_message(&[0x0a]), None);
    assert_eq!(read_text_message(&[0x0a, 5, b'a']), None);
    assert_eq!(read_text_message(&[0x0a, 0xff, 0xff, 0xff, 0xff, 0x0f, b'a']), None);
    assert_eq!(read_text_message(&[0x0a, 1, 0xff]), None);
    assert_eq!(read_text_message(&[0x80]), None);
    assert_eq!(read_text_message(&[0x80; 11]), None);
    assert_eq!(read_text_message(&[0x1b]), None);
    assert_eq!(read_text_message(&[0x1f, 0]), None);
    assert_eq!(read_text_message(&[0x19, 1, 2]), None);
}

#[test]
fn a_request_is_a_name() {
    assert_eq!(HelloRequest::from_reader(&[0x0a, 3, b'J', b'o', b'e']).map(|r| r.name), Some("Joe".to_string()));
    assert!(HelloRequest::from_reader(&[0x0a, 3]).is_none());
}

#[test]
fn a_reply_is_framed_as_a_grpc_message() {
    let reply = HelloReply { message: "Hello Joe".to_string() };
    assert_eq!(reply.get_size(), 11);
    let mut out = Vec::new();
    reply.write_message(&mut out);
    assert_eq!(out, b"\x0a\x09Hello Joe".to_vec());
    assert_eq!(grpc_message(&reply), b"\x00\x00\x00\x00\x0b\x0a\x09Hello Joe".to_vec());
}

#[test]
fn header_blocks_are_measured() {
    assert!(is_well_framed(&[]));
    assert!(is_well_framed(&[0x82, 0x87]));
    // A literal with a new name, and one with an indexed name.
    assert!(is_well_framed(&[0x40, 1, b'a', 1, b'b']));
    assert!(is_well_framed(&[0x04, 1, b'/']));
    // A table size update in two octets.
    assert!(is_well_framed(&[0x3f, 0x01]));
    assert!(!is_well_framed(&[0x3f]));
    assert!(!is_well_framed(&[0x40, 1, b'a', 2, b'b']));
    assert!(!is_well_framed(&[0x40]));
    assert!(!is_well_framed(&[0xff, 0x80, 0x80, 0x80, 0x80, 0x01]));
}
