//! The verified core of one connection session.
//!
//! A session owns one accepted socket, split into a read duty and a write
//! duty. The read duty turns each decoded TELNET event into one action:
//! forward a chat line to the hub, push a negotiation reply to the write
//! duty, ignore it, close gracefully, or fail the session. The write duty
//! serializes hub deliveries and negotiation replies back into wire bytes.
//! Both decisions live here as pure functions; the unverified async shell
//! only moves their results over the socket and the channels.

use vstd::prelude::*;

use crate::telnet::Item;

verus! {

/// The TELNET option id for suppress-go-ahead, the one option this relay
/// accepts.
pub const OPT_SUPPRESS_GO_AHEAD: u8 = 3;

/// A reply travelling from a session's read duty to its write duty.
#[derive(Copy, Clone, Debug, Eq, PartialEq, Structural)]
pub enum InternalMsg {
    /// Answer an "are you there" probe.
    GotAreYouThere,
    /// Refuse an option the remote offered.
    SendDont(u8),
    /// Refuse an option the remote requested of us.
    SendWont(u8),
    /// Accept an option the remote offered.
    SendDo(u8),
}

/// What the read duty does with one decoded event.
pub enum ReadAction {
    /// Relay this chat line to the hub.
    Forward(Vec<u8>),
    /// Push this negotiation reply to the write duty.
    Reply(InternalMsg),
    /// Nothing to do.
    Ignore,
    /// End the read duty successfully (graceful close).
    Stop,
    /// Fail the session: the event cannot be handled.
    Fail(Item),
}

/// Decides the read duty's reaction to one decoded TELNET event: chat lines
/// go to the hub; an offer of suppress-go-ahead is accepted and every other
/// offer refused; requests for local options are refused (this server
/// offers none); a probe is answered; go-ahead is ignored;
/// interrupt-process closes gracefully; anything else fails the session.
pub fn handle_item(item: Item) -> (action: ReadAction)
    ensures
        match item {
            Item::Line(line) => action matches ReadAction::Forward(payload) && payload == line,
            Item::AreYouThere => action == ReadAction::Reply(InternalMsg::GotAreYouThere),
            Item::GoAhead => action == ReadAction::Ignore,
            Item::InterruptProcess => action == ReadAction::Stop,
            Item::Will(opt) => if opt == OPT_SUPPRESS_GO_AHEAD {
                action == ReadAction::Reply(InternalMsg::SendDo(OPT_SUPPRESS_GO_AHEAD))
            } else {
                action == ReadAction::Reply(InternalMsg::SendDont(opt))
            },
            Item::Do(opt) => action == ReadAction::Reply(InternalMsg::SendWont(opt)),
            Item::Wont(opt) => action == ReadAction::Fail(Item::Wont(opt)),
            Item::Dont(opt) => action == ReadAction::Fail(Item::Dont(opt)),
            Item::Unsupported(cmd) => action == ReadAction::Fail(Item::Unsupported(cmd)),
        },
{
    match item {
        Item::Line(line) => ReadAction::Forward(line),
        Item::AreYouThere => ReadAction::Reply(InternalMsg::GotAreYouThere),
        Item::GoAhead => ReadAction::Ignore,
        Item::InterruptProcess => ReadAction::Stop,
        Item::Will(opt) => {
            if opt == OPT_SUPPRESS_GO_AHEAD {
                ReadAction::Reply(InternalMsg::SendDo(OPT_SUPPRESS_GO_AHEAD))
            } else {
                ReadAction::Reply(InternalMsg::SendDont(opt))
            }
        },
        Item::Do(opt) => ReadAction::Reply(InternalMsg::SendWont(opt)),
        other => ReadAction::Fail(other),
    }
}

/// The wire bytes of one read-to-write reply: negotiation replies as their
/// literal IAC sequences, and the probe answer as literal text.
pub open spec fn reply_bytes(msg: InternalMsg) -> Seq<u8> {
    match msg {
        // "Yes.\r\n"
        InternalMsg::GotAreYouThere => seq![89u8, 101u8, 115u8, 46u8, 13u8, 10u8],
        InternalMsg::SendDont(opt) => seq![255u8, 254u8, opt],
        InternalMsg::SendWont(opt) => seq![255u8, 252u8, opt],
        InternalMsg::SendDo(opt) => seq![255u8, 253u8, opt],
    }
}

/// Serializes one reply for the socket, byte for byte as `reply_bytes` says.
pub fn encode_reply(msg: &InternalMsg) -> (out: Vec<u8>)
    ensures
        out@ == reply_bytes(*msg),
{
    let mut out: Vec<u8> = Vec::new();
    match msg {
        InternalMsg::GotAreYouThere => {
            out.push(89);
            out.push(101);
            out.push(115);
            out.push(46);
            out.push(13);
            out.push(10);
        },
        InternalMsg::SendDont(opt) => {
            out.push(255);
            out.push(254);
            out.push(*opt);
        },
        InternalMsg::SendWont(opt) => {
            out.push(255);
            out.push(252);
            out.push(*opt);
        },
        InternalMsg::SendDo(opt) => {
            out.push(255);
            out.push(253);
            out.push(*opt);
        },
    }
    proof {
        assert(out@ =~= reply_bytes(*msg));
    }
    out
}

/// Serializes one chat delivery for the socket: the payload followed by
/// carriage return and line feed.
pub fn encode_message(payload: &Vec<u8>) -> (out: Vec<u8>)
    ensures
        out@ == payload@ + seq![13u8, 10u8],
{
    let mut out: Vec<u8> = Vec::new();
    let mut i: usize = 0;
    while i < payload.len()
        invariant
            i <= payload.len(),
            out@ =~= payload@.take(i as int),
        decreases payload.len() - i,
    {
        out.push(payload[i]);
        proof {
            assert(out@ =~= payload@.take(i as int + 1));
        }
        i = i + 1;
    }
    out.push(13);
    out.push(10);
    proof {
        assert(payload@.take(payload@.len() as int) =~= payload@);
        assert(out@ =~= payload@ + seq![13u8, 10u8]);
    }
    out
}

} // verus!
