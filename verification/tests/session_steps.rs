//! The read duty's decisions and the write duty's serialization.

use telnet_chat::client::{
    encode_message, encode_reply, handle_item, InternalMsg, ReadAction, OPT_SUPPRESS_GO_AHEAD,
};
use telnet_chat::telnet::Item;

#[test]
fn line_is_forwarded_to_hub() {
    match handle_item(Item::Line(b"hi".to_vec())) {
        ReadAction::Forward(payload) => assert_eq!(payload.as_slice(), b"hi"),
        other => panic!("expected a forward, got another action: {:?}", variant_name(&other)),
    }
}

fn variant_name(action: &ReadAction) -> &'static str {
    match action {
        ReadAction::Forward(_) => "Forward",
        ReadAction::Reply(_) => "Reply",
        ReadAction::Ignore => "Ignore",
        ReadAction::Stop => "Stop",
        ReadAction::Fail(_) => "Fail",
    }
}

#[test]
fn will_suppress_go_ahead_is_accepted() {
    assert_eq!(OPT_SUPPRESS_GO_AHEAD, 3);
    match handle_item(Item::Will(3)) {
        ReadAction::Reply(msg) => assert_eq!(msg, InternalMsg::SendDo(3)),
        other => panic!("expected a reply, got {}", variant_name(&other)),
    }
    // serialized as IAC DO 3
    assert_eq!(encode_reply(&InternalMsg::SendDo(3)), vec![0xff, 0xfd, 0x03]);
}

#[test]
fn will_unknown_option_is_refused() {
    match handle_item(Item::Will(42)) {
        ReadAction::Reply(msg) => assert_eq!(msg, InternalMsg::SendDont(42)),
        other => panic!("expected a reply, got {}", variant_name(&other)),
    }
    // serialized as IAC DONT 42
    assert_eq!(encode_reply(&InternalMsg::SendDont(42)), vec![0xff, 0xfe, 0x2a]);
}

#[test]
fn do_any_option_is_refused() {
    match handle_item(Item::Do(5)) {
        ReadAction::Reply(msg) => assert_eq!(msg, InternalMsg::SendWont(5)),
        other => panic!("expected a reply, got {}", variant_name(&other)),
    }
    // serialized as IAC WONT 5
    assert_eq!(encode_reply(&InternalMsg::SendWont(5)), vec![0xff, 0xfc, 0x05]);
}

#[test]
fn are_you_there_is_answered_literally() {
    match handle_item(Item::AreYouThere) {
        ReadAction::Reply(msg) => {
            assert_eq!(msg, InternalMsg::GotAreYouThere);
            assert_eq!(encode_reply(&msg), b"Yes.\r\n".to_vec());
        },
        other => panic!("expected a reply, got {}", variant_name(&other)),
    }
}

#[test]
fn go_ahead_is_ignored() {
    assert!(matches!(handle_item(Item::GoAhead), ReadAction::Ignore));
}

#[test]
fn interrupt_process_stops_read_duty_cleanly() {
    // a graceful close: no forward to the hub, no failure
    assert!(matches!(handle_item(Item::InterruptProcess), ReadAction::Stop));
}

#[test]
fn unhandled_items_fail_the_session() {
    assert!(matches!(handle_item(Item::Wont(1)), ReadAction::Fail(Item::Wont(1))));
    assert!(matches!(handle_item(Item::Dont(2)), ReadAction::Fail(Item::Dont(2))));
    assert!(matches!(
        handle_item(Item::Unsupported(241)),
        ReadAction::Fail(Item::Unsupported(241))
    ));
}

#[test]
fn chat_delivery_is_payload_then_crlf() {
    assert_eq!(encode_message(&b"hi".to_vec()), b"hi\r\n".to_vec());
    assert_eq!(encode_message(&Vec::new()), b"\r\n".to_vec());
}
