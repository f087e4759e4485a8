//! Decoder behaviour over the wire bytes of real TELNET clients.

use telnet_chat::telnet::{DecodeState, Item, ProtocolError, TelnetCodec};

fn decode_all(bytes: &[u8]) -> Vec<Item> {
    let mut codec = TelnetCodec::new();
    codec
        .feed_bytes(&bytes.to_vec())
        .expect("decoder refused well-formed input")
}

#[test]
fn round_trip_hello_line() {
    let items = decode_all(&[b'h', b'e', b'l', b'l', b'o', 13, 10]);
    assert_eq!(items.len(), 1);
    match &items[0] {
        Item::Line(line) => assert_eq!(line.as_slice(), b"hello"),
        other => panic!("expected a line, got {:?}", other),
    }
}

#[test]
fn bare_line_feed_flushes() {
    let items = decode_all(&[b'h', b'i', 10]);
    assert_eq!(items.len(), 1);
    match &items[0] {
        Item::Line(line) => assert_eq!(line.as_slice(), b"hi"),
        other => panic!("expected a line, got {:?}", other),
    }
}

#[test]
fn incomplete_line_stays_pending() {
    let items = decode_all(&[b'h', b'i']);
    assert_eq!(items.len(), 0);
}

#[test]
fn two_lines_in_one_chunk() {
    let items = decode_all(&[b'a', 13, 10, b'b', 13, 10]);
    assert_eq!(items.len(), 2);
    match (&items[0], &items[1]) {
        (Item::Line(a), Item::Line(b)) => {
            assert_eq!(a.as_slice(), b"a");
            assert_eq!(b.as_slice(), b"b");
        },
        other => panic!("expected two lines, got {:?}", other),
    }
}

#[test]
fn escaped_iac_is_literal_byte() {
    let items = decode_all(&[b'x', 255, 255, b'y', 13, 10]);
    assert_eq!(items.len(), 1);
    match &items[0] {
        Item::Line(line) => assert_eq!(line.as_slice(), &[b'x', 255, b'y']),
        other => panic!("expected a line, got {:?}", other),
    }
}

#[test]
fn are_you_there_leaves_pending_line_untouched() {
    // IAC AYT between line bytes: the probe surfaces at once and the split
    // line is still assembled whole afterwards.
    let mut codec = TelnetCodec::new();
    let first = codec.feed_bytes(&vec![b'p', b'a', b'r', 255, 246]).unwrap();
    assert_eq!(first.len(), 1);
    assert!(matches!(first[0], Item::AreYouThere));
    let second = codec.feed_bytes(&vec![b't', b'i', b'a', b'l', 13, 10]).unwrap();
    assert_eq!(second.len(), 1);
    match &second[0] {
        Item::Line(line) => assert_eq!(line.as_slice(), b"partial"),
        other => panic!("expected a line, got {:?}", other),
    }
}

#[test]
fn go_ahead_does_not_flush() {
    let mut codec = TelnetCodec::new();
    let first = codec.feed_bytes(&vec![b'a', 255, 249]).unwrap();
    assert_eq!(first.len(), 1);
    assert!(matches!(first[0], Item::GoAhead));
    let second = codec.feed_bytes(&vec![b'b', 13, 10]).unwrap();
    match &second[0] {
        Item::Line(line) => assert_eq!(line.as_slice(), b"ab"),
        other => panic!("expected a line, got {:?}", other),
    }
}

#[test]
fn interrupt_process_decodes() {
    let items = decode_all(&[255, 244]);
    assert_eq!(items.len(), 1);
    assert!(matches!(items[0], Item::InterruptProcess));
}

#[test]
fn negotiation_sequences_decode() {
    let items = decode_all(&[255, 251, 3, 255, 252, 7, 255, 253, 5, 255, 254, 9]);
    assert_eq!(items.len(), 4);
    assert!(matches!(items[0], Item::Will(3)));
    assert!(matches!(items[1], Item::Wont(7)));
    assert!(matches!(items[2], Item::Do(5)));
    assert!(matches!(items[3], Item::Dont(9)));
}

#[test]
fn unknown_escape_command_is_unsupported() {
    let items = decode_all(&[255, 241]);
    assert_eq!(items.len(), 1);
    assert!(matches!(items[0], Item::Unsupported(241)));
}

#[test]
fn subnegotiation_is_refused() {
    let mut codec = TelnetCodec::new();
    let res = codec.feed_bytes(&vec![255, 250, 1, 2]);
    assert!(matches!(res, Err(ProtocolError::UnsupportedSequence(250))));
}

#[test]
fn events_before_a_refused_byte_surface_bytewise() {
    // fed a byte at a time, the line ahead of the refused subnegotiation
    // still comes out before the error
    let mut codec = TelnetCodec::new();
    let bytes = [b'h', b'i', 13, 10, 255, 250];
    let mut items: Vec<Item> = Vec::new();
    let mut refusal = None;
    for &byte in bytes.iter() {
        match codec.feed(byte) {
            Ok(Some(item)) => items.push(item),
            Ok(None) => {},
            Err(err) => {
                refusal = Some(err);
                break;
            },
        }
    }
    assert_eq!(items.len(), 1);
    match &items[0] {
        Item::Line(line) => assert_eq!(line.as_slice(), b"hi"),
        other => panic!("expected a line, got {:?}", other),
    }
    assert!(matches!(refusal, Some(ProtocolError::UnsupportedSequence(250))));
}

#[test]
fn feed_reports_one_event_per_byte_at_most() {
    let mut codec = TelnetCodec::new();
    assert!(codec.feed(255).unwrap().is_none());
    let item = codec.feed(246).unwrap();
    assert!(matches!(item, Some(Item::AreYouThere)));
}

#[test]
fn decode_state_is_plain_data() {
    assert_eq!(DecodeState::Negotiate(251), DecodeState::Negotiate(251));
    assert_ne!(DecodeState::Normal, DecodeState::Escape);
}
