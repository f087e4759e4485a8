//! Incremental decoder for the TELNET byte stream.
//!
//! The decoder is a state machine over the IAC (0xFF) escape byte. Ordinary
//! bytes accumulate into the current line buffer; a line feed flushes the
//! buffer (dropping one carriage return before it, if present) as a
//! `Line` event; IAC opens a two- or three-byte control or negotiation
//! sequence. Subnegotiation is not supported and is refused as a
//! `ProtocolError` rather than silently consumed.

use vstd::prelude::*;

verus! {

/// TELNET "Interpret As Command" escape byte.
pub const IAC: u8 = 255;

/// Option negotiation verbs.
pub const CMD_WILL: u8 = 251;

pub const CMD_WONT: u8 = 252;

pub const CMD_DO: u8 = 253;

pub const CMD_DONT: u8 = 254;

/// Subnegotiation opener (not supported here).
pub const CMD_SB: u8 = 250;

/// Go-ahead: legacy half-duplex signal, informational only.
pub const CMD_GA: u8 = 249;

/// "Are you there" liveness probe.
pub const CMD_AYT: u8 = 246;

/// Interrupt-process: asks the session to close gracefully.
pub const CMD_IP: u8 = 244;

pub const BYTE_CR: u8 = 13;

pub const BYTE_LF: u8 = 10;

/// One decoded TELNET protocol event, consumed by the session's read duty.
#[derive(Debug)]
pub enum Item {
    /// A complete text line, without its terminator.
    Line(Vec<u8>),
    AreYouThere,
    GoAhead,
    InterruptProcess,
    Will(u8),
    Do(u8),
    Wont(u8),
    Dont(u8),
    /// An escape command this decoder recognizes but the relay does not handle.
    Unsupported(u8),
}

/// Mathematical model of an `Item`, with the line payload as a sequence.
pub enum ItemModel {
    Line(Seq<u8>),
    AreYouThere,
    GoAhead,
    InterruptProcess,
    Will(u8),
    Do(u8),
    Wont(u8),
    Dont(u8),
    Unsupported(u8),
}

impl View for Item {
    type V = ItemModel;

    open spec fn view(&self) -> ItemModel {
        match self {
            Item::Line(line) => ItemModel::Line(line@),
            Item::AreYouThere => ItemModel::AreYouThere,
            Item::GoAhead => ItemModel::GoAhead,
            Item::InterruptProcess => ItemModel::InterruptProcess,
            Item::Will(opt) => ItemModel::Will(*opt),
            Item::Do(opt) => ItemModel::Do(*opt),
            Item::Wont(opt) => ItemModel::Wont(*opt),
            Item::Dont(opt) => ItemModel::Dont(*opt),
            Item::Unsupported(cmd) => ItemModel::Unsupported(*cmd),
        }
    }
}

/// A byte sequence the decoder refuses: the unsupported subnegotiation
/// opener (IAC SB).
#[derive(Copy, Clone, Debug, Eq, PartialEq, Structural)]
pub enum ProtocolError {
    UnsupportedSequence(u8),
}

/// Position of the decoder between two bytes of input.
#[derive(Copy, Clone, Debug, Eq, PartialEq, Structural)]
pub enum DecodeState {
    /// Accumulating line bytes.
    Normal,
    /// The previous byte was IAC; the next byte names a command.
    Escape,
    /// Inside a negotiation sequence opened by the given verb
    /// (WILL, WONT, DO or DONT); the next byte is the option id.
    Negotiate(u8),
}

/// Mathematical model of the decoder: its state and pending line buffer.
#[verifier::ext_equal]
pub struct CodecModel {
    pub state: DecodeState,
    pub buffer: Seq<u8>,
}

/// The line flushed by a line feed: the pending buffer, less one carriage
/// return directly before the line feed.
pub open spec fn flush_line(buffer: Seq<u8>) -> Seq<u8> {
    if buffer.len() > 0 && buffer.last() == BYTE_CR {
        buffer.drop_last()
    } else {
        buffer
    }
}

/// One step of the decoder on byte `b`: the next model and the event
/// emitted, or `None` when the byte opens a sequence the decoder refuses.
pub open spec fn step_spec(m: CodecModel, b: u8) -> Option<(CodecModel, Option<ItemModel>)> {
    match m.state {
        DecodeState::Normal => {
            if b == IAC {
                Some((CodecModel { state: DecodeState::Escape, buffer: m.buffer }, None))
            } else if b == BYTE_LF {
                Some(
                    (
                        CodecModel { state: DecodeState::Normal, buffer: Seq::empty() },
                        Some(ItemModel::Line(flush_line(m.buffer))),
                    ),
                )
            } else {
                Some((CodecModel { state: DecodeState::Normal, buffer: m.buffer.push(b) }, None))
            }
        },
        DecodeState::Escape => {
            if b == IAC {
                // escaped IAC: a literal 0xFF in the line
                Some((CodecModel { state: DecodeState::Normal, buffer: m.buffer.push(IAC) }, None))
            } else if b == CMD_GA {
                Some(
                    (
                        CodecModel { state: DecodeState::Normal, buffer: m.buffer },
                        Some(ItemModel::GoAhead),
                    ),
                )
            } else if b == CMD_IP {
                Some(
                    (
                        CodecModel { state: DecodeState::Normal, buffer: m.buffer },
                        Some(ItemModel::InterruptProcess),
                    ),
                )
            } else if b == CMD_AYT {
                Some(
                    (
                        CodecModel { state: DecodeState::Normal, buffer: m.buffer },
                        Some(ItemModel::AreYouThere),
                    ),
                )
            } else if CMD_WILL <= b && b <= CMD_DONT {
                Some((CodecModel { state: DecodeState::Negotiate(b), buffer: m.buffer }, None))
            } else if b == CMD_SB {
                None
            } else {
                Some(
                    (
                        CodecModel { state: DecodeState::Normal, buffer: m.buffer },
                        Some(ItemModel::Unsupported(b)),
                    ),
                )
            }
        },
        DecodeState::Negotiate(verb) => {
            let item = if verb == CMD_WILL {
                ItemModel::Will(b)
            } else if verb == CMD_WONT {
                ItemModel::Wont(b)
            } else if verb == CMD_DO {
                ItemModel::Do(b)
            } else {
                ItemModel::Dont(b)
            };
            Some((CodecModel { state: DecodeState::Normal, buffer: m.buffer }, Some(item)))
        },
    }
}

/// The decoder run over a whole input: the final model and every event
/// emitted, in order, or `None` when some byte is refused.
pub open spec fn decode_seq(m: CodecModel, input: Seq<u8>) -> Option<(CodecModel, Seq<ItemModel>)>
    decreases input.len(),
{
    if input.len() == 0 {
        Some((m, Seq::empty()))
    } else {
        match step_spec(m, input.first()) {
            None => None,
            Some(step) => match decode_seq(step.0, input.drop_first()) {
                None => None,
                Some(rest) => {
                    let head: Seq<ItemModel> = match step.1 {
                        Some(item) => seq![item],
                        None => Seq::empty(),
                    };
                    Some((rest.0, head + rest.1))
                },
            },
        }
    }
}

pub open spec fn opt_item_view(o: Option<Item>) -> Option<ItemModel> {
    match o {
        Some(item) => Some(item@),
        None => None,
    }
}

/// The first byte of the input that the decoder refuses, if it refuses one:
/// the byte named by the error a chunk decode reports.
pub open spec fn first_refused(m: CodecModel, input: Seq<u8>) -> Option<u8>
    decreases input.len(),
{
    if input.len() == 0 {
        None
    } else {
        match step_spec(m, input.first()) {
            None => Some(input.first()),
            Some(step) => first_refused(step.0, input.drop_first()),
        }
    }
}

/// The incremental TELNET decoder: feed it bytes as they arrive, collect
/// the events it emits. Non-restartable: a refused byte leaves the decoder
/// unchanged, and the session gives it up.
pub struct TelnetCodec {
    state: DecodeState,
    buffer: Vec<u8>,
}

impl View for TelnetCodec {
    type V = CodecModel;

    closed spec fn view(&self) -> CodecModel {
        CodecModel { state: self.state, buffer: self.buffer@ }
    }
}

impl TelnetCodec {
    /// A decoder at the start of a stream: accumulating, with nothing pending.
    pub fn new() -> (codec: TelnetCodec)
        ensures
            codec@ == (CodecModel { state: DecodeState::Normal, buffer: Seq::<u8>::empty() }),
    {
        let codec = TelnetCodec { state: DecodeState::Normal, buffer: Vec::new() };
        proof {
            assert(codec@ =~= CodecModel { state: DecodeState::Normal, buffer: Seq::<u8>::empty() });
        }
        codec
    }

    /// Consumes one byte: emits at most one event, exactly as `step_spec`
    /// says; refuses the byte (leaving the decoder as it was) exactly when
    /// `step_spec` refuses it.
    pub fn feed(&mut self, b: u8) -> (r: Result<Option<Item>, ProtocolError>)
        ensures
            match step_spec(old(self)@, b) {
                Some(step) => r matches Ok(emitted) && final(self)@ == step.0 && opt_item_view(
                    emitted,
                ) == step.1,
                None => r == Err::<Option<Item>, ProtocolError>(
                    ProtocolError::UnsupportedSequence(b),
                ) && *final(self) == *old(self),
            },
    {
        match self.state {
            DecodeState::Normal => {
                if b == IAC {
                    self.state = DecodeState::Escape;
                    Ok(None)
                } else if b == BYTE_LF {
                    let mut line: Vec<u8> = Vec::new();
                    core::mem::swap(&mut line, &mut self.buffer);
                    if line.len() > 0 && line[line.len() - 1] == BYTE_CR {
                        line.pop();
                    }
                    proof {
                        assert(self@.buffer =~= Seq::<u8>::empty());
                        assert(line@ =~= flush_line(old(self)@.buffer));
                    }
                    Ok(Some(Item::Line(line)))
                } else {
                    self.buffer.push(b);
                    Ok(None)
                }
            },
            DecodeState::Escape => {
                if b == IAC {
                    self.state = DecodeState::Normal;
                    self.buffer.push(IAC);
                    Ok(None)
                } else if b == CMD_GA {
                    self.state = DecodeState::Normal;
                    Ok(Some(Item::GoAhead))
                } else if b == CMD_IP {
                    self.state = DecodeState::Normal;
                    Ok(Some(Item::InterruptProcess))
                } else if b == CMD_AYT {
                    self.state = DecodeState::Normal;
                    Ok(Some(Item::AreYouThere))
                } else if CMD_WILL <= b && b <= CMD_DONT {
                    self.state = DecodeState::Negotiate(b);
                    Ok(None)
                } else if b == CMD_SB {
                    Err(ProtocolError::UnsupportedSequence(b))
                } else {
                    self.state = DecodeState::Normal;
                    Ok(Some(Item::Unsupported(b)))
                }
            },
            DecodeState::Negotiate(verb) => {
                self.state = DecodeState::Normal;
                let item = if verb == CMD_WILL {
                    Item::Will(b)
                } else if verb == CMD_WONT {
                    Item::Wont(b)
                } else if verb == CMD_DO {
                    Item::Do(b)
                } else {
                    Item::Dont(b)
                };
                Ok(Some(item))
            },
        }
    }

    /// Consumes a whole chunk of input: returns every event the chunk
    /// completes, in order, exactly as `decode_seq` says; an error names
    /// the first byte of the chunk the decoder refuses.
    pub fn feed_bytes(&mut self, input: &Vec<u8>) -> (r: Result<Vec<Item>, ProtocolError>)
        ensures
            match decode_seq(old(self)@, input@) {
                Some(d) => r matches Ok(items) && final(self)@ == d.0 && items@.map_values(
                    |item: Item| item@,
                ) == d.1,
                None => r matches Err(err) && (first_refused(old(self)@, input@) matches Some(b)
                    && err == ProtocolError::UnsupportedSequence(b)),
            },
    {
        let ghost init = self@;
        let mut out: Vec<Item> = Vec::new();
        let mut i: usize = 0;
        proof {
            assert(input@.skip(0) =~= input@);
            assert(out@.map_values(|item: Item| item@) =~= Seq::<ItemModel>::empty());
            match decode_seq(init, input@) {
                Some(d) => {
                    assert(Seq::<ItemModel>::empty() + d.1 =~= d.1);
                },
                None => {},
            }
        }
        while i < input.len()
            invariant
                i <= input.len(),
                init == old(self)@,
                decode_suffix_ok(init, input@, i as int, self@, out@.map_values(|item: Item| item@)),
                first_refused(init, input@) == first_refused(self@, input@.skip(i as int)),
            decreases input.len() - i,
        {
            let ghost cur = self@;
            let ghost out_model = out@.map_values(|item: Item| item@);
            let ghost rest = input@.skip(i as int);
            proof {
                assert(rest.len() > 0);
                assert(rest.first() == input@[i as int]);
                assert(rest.drop_first() =~= input@.skip(i as int + 1));
            }
            match self.feed(input[i]) {
                Ok(emitted) => {
                    proof {
                        let step = step_spec(cur, input@[i as int]).unwrap();
                        assert(first_refused(cur, rest) == first_refused(
                            step.0,
                            input@.skip(i as int + 1),
                        ));
                        let head: Seq<ItemModel> = match step.1 {
                            Some(item) => seq![item],
                            None => Seq::<ItemModel>::empty(),
                        };
                        match decode_seq(step.0, input@.skip(i as int + 1)) {
                            Some(d2) => {
                                assert(decode_seq(cur, rest) == Some((d2.0, head + d2.1)));
                                assert((out_model + head) + d2.1 =~= out_model + (head + d2.1));
                            },
                            None => {
                                assert(decode_seq(cur, rest) is None);
                            },
                        }
                    }
                    match emitted {
                        Some(item) => {
                            proof {
                                let step = step_spec(cur, input@[i as int]).unwrap();
                                assert(step.1 == Some(item@));
                                assert(out@.push(item).map_values(|it: Item| it@) =~= out_model
                                    + seq![item@]);
                            }
                            out.push(item);
                        },
                        None => {
                            proof {
                                assert(out_model =~= out_model + Seq::<ItemModel>::empty());
                            }
                        },
                    }
                },
                Err(err) => {
                    proof {
                        assert(step_spec(cur, rest.first()) is None);
                        assert(first_refused(cur, rest) == Some(input@[i as int]));
                        assert(decode_seq(cur, rest) is None);
                        assert(decode_suffix_ok(
                            init,
                            input@,
                            i as int,
                            cur,
                            out@.map_values(|item: Item| item@),
                        ));
                        assert(decode_seq(init, input@) is None);
                    }
                    return Err(err);
                },
            }
            i = i + 1;
        }
        proof {
            assert(input@.skip(input@.len() as int) =~= Seq::<u8>::empty());
            let out_model = out@.map_values(|item: Item| item@);
            assert(out_model + Seq::<ItemModel>::empty() =~= out_model);
        }
        Ok(out)
    }
}

/// The invariant that carries a chunk decode: if the rest of the input
/// decodes from the current model, the whole input decodes from the initial
/// one to the same end, with the events gathered so far in front.
pub open spec fn decode_suffix_ok(
    init: CodecModel,
    input: Seq<u8>,
    i: int,
    cur: CodecModel,
    out: Seq<ItemModel>,
) -> bool {
    match decode_seq(cur, input.skip(i)) {
        Some(d) => decode_seq(init, input) == Some((d.0, out + d.1)),
        None => decode_seq(init, input) is None,
    }
}

/// Law (chunking): decoding is sequential, so feeding an input in two
/// chunks ends as feeding it whole — same events, same final model, and a
/// refused byte is refused either way.
pub proof fn lemma_decode_seq_append(m: CodecModel, a: Seq<u8>, b: Seq<u8>)
    ensures
        match decode_seq(m, a) {
            Some(d) => decode_seq(m, a + b) == (match decode_seq(d.0, b) {
                Some(rest) => Some((rest.0, d.1 + rest.1)),
                None => None::<(CodecModel, Seq<ItemModel>)>,
            }),
            None => decode_seq(m, a + b) is None,
        },
    decreases a.len(),
{
    if a.len() == 0 {
        assert(a + b =~= b);
        match decode_seq(m, b) {
            Some(rest) => {
                assert(Seq::<ItemModel>::empty() + rest.1 =~= rest.1);
            },
            None => {},
        }
    } else {
        assert((a + b).len() > 0);
        assert((a + b).first() == a.first());
        assert((a + b).drop_first() =~= a.drop_first() + b);
        match step_spec(m, a.first()) {
            None => {},
            Some(step) => {
                let head: Seq<ItemModel> = match step.1 {
                    Some(item) => seq![item],
                    None => Seq::<ItemModel>::empty(),
                };
                lemma_decode_seq_append(step.0, a.drop_first(), b);
                match decode_seq(step.0, a.drop_first()) {
                    None => {},
                    Some(d) => {
                        match decode_seq(d.0, b) {
                            Some(rest) => {
                                assert(head + (d.1 + rest.1) =~= (head + d.1) + rest.1);
                            },
                            None => {},
                        }
                    },
                }
            },
        }
    }
}

/// Bytes that carry no control meaning for the decoder: not the IAC escape
/// and not a line terminator.
pub open spec fn plain_text(s: Seq<u8>) -> bool {
    forall|i: int| 0 <= i < s.len() ==> s[i] != IAC && s[i] != BYTE_LF && s[i] != BYTE_CR
}

/// Plain text only accumulates: no event, every byte onto the line buffer.
proof fn lemma_decode_plain(buf: Seq<u8>, payload: Seq<u8>)
    requires
        plain_text(payload),
    ensures
        decode_seq(CodecModel { state: DecodeState::Normal, buffer: buf }, payload) == Some(
            (
                CodecModel { state: DecodeState::Normal, buffer: buf + payload },
                Seq::<ItemModel>::empty(),
            ),
        ),
    decreases payload.len(),
{
    let m = CodecModel { state: DecodeState::Normal, buffer: buf };
    if payload.len() == 0 {
        assert(buf + payload =~= buf);
        assert(CodecModel { state: DecodeState::Normal, buffer: buf + payload } =~= m);
    } else {
        let head = payload.first();
        let rest = payload.drop_first();
        assert(payload.contains(head));
        assert(step_spec(m, head) == Some(
            (
                CodecModel { state: DecodeState::Normal, buffer: buf.push(head) },
                None::<ItemModel>,
            ),
        ));
        assert forall|i: int| 0 <= i < rest.len() implies rest[i] != IAC && rest[i] != BYTE_LF
            && rest[i] != BYTE_CR by {
            assert(rest[i] == payload[i + 1]);
        }
        lemma_decode_plain(buf.push(head), rest);
        assert(buf.push(head) + rest =~= buf + payload);
        assert(Seq::<ItemModel>::empty() + Seq::<ItemModel>::empty() =~= Seq::<ItemModel>::empty());
    }
}

/// Law (round trip): a chat line framed for the wire — plain-text payload,
/// then carriage return and line feed — decodes to exactly one `Line`
/// holding that payload, and leaves the decoder back at its start.
pub proof fn lemma_line_round_trip(payload: Seq<u8>)
    requires
        plain_text(payload),
    ensures
        ({
            let start = CodecModel { state: DecodeState::Normal, buffer: Seq::<u8>::empty() };
            decode_seq(start, payload + seq![BYTE_CR, BYTE_LF]) == Some(
                (start, seq![ItemModel::Line(payload)]),
            )
        }),
{
    reveal_with_fuel(decode_seq, 3);
    let start = CodecModel { state: DecodeState::Normal, buffer: Seq::<u8>::empty() };
    let after_text = CodecModel { state: DecodeState::Normal, buffer: payload };
    let after_cr = CodecModel { state: DecodeState::Normal, buffer: payload.push(BYTE_CR) };
    lemma_decode_plain(Seq::<u8>::empty(), payload);
    assert(Seq::<u8>::empty() + payload =~= payload);
    lemma_decode_seq_append(start, payload, seq![BYTE_CR, BYTE_LF]);
    let ending = seq![BYTE_CR, BYTE_LF];
    assert(ending.drop_first() =~= seq![BYTE_LF]);
    assert(seq![BYTE_LF].drop_first() =~= Seq::<u8>::empty());
    assert(step_spec(after_text, BYTE_CR) == Some((after_cr, None::<ItemModel>)));
    assert(flush_line(payload.push(BYTE_CR)) =~= payload);
    assert(step_spec(after_cr, BYTE_LF) == Some((start, Some(ItemModel::Line(payload)))));
    assert(decode_seq(after_cr, seq![BYTE_LF]) == Some(
        (start, seq![ItemModel::Line(payload)] + Seq::<ItemModel>::empty()),
    ));
    assert(seq![ItemModel::Line(payload)] + Seq::<ItemModel>::empty() =~= seq![
        ItemModel::Line(payload),
    ]);
    assert(decode_seq(after_text, ending) == Some(
        (start, Seq::<ItemModel>::empty() + seq![ItemModel::Line(payload)]),
    ));
    assert(Seq::<ItemModel>::empty() + seq![ItemModel::Line(payload)] =~= seq![
        ItemModel::Line(payload),
    ]);
}

/// Law: an "are you there" probe (IAC AYT) between line bytes yields exactly
/// one `AreYouThere` event and neither flushes nor alters the pending line
/// buffer.
pub proof fn lemma_ayt_preserves_line_buffer(m: CodecModel)
    requires
        m.state == DecodeState::Normal,
    ensures
        decode_seq(m, seq![IAC, CMD_AYT]) == Some((m, seq![ItemModel::AreYouThere])),
{
    reveal_with_fuel(decode_seq, 4);
    let probe = seq![IAC, CMD_AYT];
    let escaped = CodecModel { state: DecodeState::Escape, buffer: m.buffer };
    let back = CodecModel { state: DecodeState::Normal, buffer: m.buffer };
    assert(back =~= m);
    assert(probe.first() == IAC);
    assert(probe.drop_first() =~= seq![CMD_AYT]);
    assert(seq![CMD_AYT].first() == CMD_AYT);
    assert(seq![CMD_AYT].drop_first() =~= Seq::<u8>::empty());
    assert(step_spec(m, IAC) == Some((escaped, Option::<ItemModel>::None)));
    assert(step_spec(escaped, CMD_AYT) == Some((back, Some(ItemModel::AreYouThere))));
    assert(decode_seq(back, Seq::<u8>::empty()) == Some((back, Seq::<ItemModel>::empty())));
    assert(seq![ItemModel::AreYouThere] + Seq::<ItemModel>::empty()
        =~= seq![ItemModel::AreYouThere]);
    assert(decode_seq(escaped, seq![CMD_AYT]) == Some((m, seq![ItemModel::AreYouThere])));
    assert(Seq::<ItemModel>::empty() + seq![ItemModel::AreYouThere]
        =~= seq![ItemModel::AreYouThere]);
    assert(decode_seq(m, probe) == Some((m, seq![ItemModel::AreYouThere])));
}

} // verus!
