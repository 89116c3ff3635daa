//! The chunk-stream demultiplexer: consumes an arbitrarily fragmented byte
//! stream and reassembles the interleaved chunks of each channel into
//! complete messages, resuming across any split, including mid-header.
//!
//! The model is a byte-at-a-time state machine, `spec_step`; feeding a byte
//! sequence folds `spec_step` over it. Every public operation is exact
//! against that model, so what comes out depends only on the bytes fed, never
//! on how they were cut into pieces.

use vstd::prelude::*;

use crate::bytes::{be3, be4, le4, read_be3, read_be4, read_le4};

verus! {

/// One complete logical message: reassembled header fields plus exactly the
/// declared number of payload bytes.
#[derive(Debug)]
pub struct Message {
    pub type_id: u8,
    pub timestamp: u32,
    pub stream_id: u32,
    pub payload: Vec<u8>,
}

/// The mathematical model of a `Message`.
#[verifier::ext_equal]
pub struct SpecMessage {
    pub type_id: u8,
    pub timestamp: u32,
    pub stream_id: u32,
    pub payload: Seq<u8>,
}

impl View for Message {
    type V = SpecMessage;

    open spec fn view(&self) -> SpecMessage {
        SpecMessage {
            type_id: self.type_id,
            timestamp: self.timestamp,
            stream_id: self.stream_id,
            payload: self.payload@,
        }
    }
}

/// Per-channel state: the last fully known header fields, the bytes still
/// owed to the in-progress message, and its partial payload.
pub struct ChannelState {
    pub timestamp: u32,
    pub last_delta: u32,
    pub length: u32,
    pub type_id: u8,
    pub stream_id: u32,
    pub bytes_owed: u32,
    pub payload: Vec<u8>,
    pub has_header: bool,
}

/// The mathematical model of a `ChannelState`.
#[verifier::ext_equal]
pub struct SpecChannel {
    pub timestamp: u32,
    pub last_delta: u32,
    pub length: u32,
    pub type_id: u8,
    pub stream_id: u32,
    pub bytes_owed: u32,
    pub payload: Seq<u8>,
    pub has_header: bool,
}

impl View for ChannelState {
    type V = SpecChannel;

    open spec fn view(&self) -> SpecChannel {
        SpecChannel {
            timestamp: self.timestamp,
            last_delta: self.last_delta,
            length: self.length,
            type_id: self.type_id,
            stream_id: self.stream_id,
            bytes_owed: self.bytes_owed,
            payload: self.payload@,
            has_header: self.has_header,
        }
    }
}

/// A channel before its first header.
pub open spec fn default_channel() -> SpecChannel {
    SpecChannel {
        timestamp: 0,
        last_delta: 0,
        length: 0,
        type_id: 0,
        stream_id: 0,
        bytes_owed: 0,
        payload: Seq::empty(),
        has_header: false,
    }
}

/// Where the parser stands between bytes. The scratch buffer of the
/// demultiplexer accumulates the bytes of the field being parsed.
#[derive(Debug, Clone, Copy)]
pub enum Phase {
    /// Awaiting the 1- to 3-byte basic header.
    BasicHeader,
    /// Awaiting the format-dependent message header of the chunk.
    MessageHeader { fmt: u8, csid: u32 },
    /// Awaiting the 4-byte extended timestamp.
    ExtendedTimestamp { fmt: u8, csid: u32, length: u32, type_id: u8, stream_id: u32 },
    /// Awaiting up to `remaining` more payload bytes of the current chunk.
    Payload { csid: u32, remaining: u32 },
    /// A fatal framing error on the named channel; no further progress.
    Failed { csid: u32 },
}

/// The mathematical model of the whole demultiplexer.
#[verifier::ext_equal]
pub struct SpecDemux {
    pub phase: Phase,
    pub scratch: Seq<u8>,
    pub channels: Seq<SpecChannel>,
    pub max_chunk_size: u32,
}

/// The state of a fresh demultiplexer: the protocol's initial maximum chunk
/// payload size is 128 bytes.
pub open spec fn initial_demux() -> SpecDemux {
    SpecDemux {
        phase: Phase::BasicHeader,
        scratch: Seq::empty(),
        channels: Seq::empty(),
        max_chunk_size: 128,
    }
}

/// The same state with a different maximum chunk size.
pub open spec fn with_max(d: SpecDemux, size: u32) -> SpecDemux {
    SpecDemux { max_chunk_size: size, ..d }
}

/// The same state after a fatal framing error on channel `csid`.
pub open spec fn spec_fail(d: SpecDemux, csid: u32) -> SpecDemux {
    SpecDemux { phase: Phase::Failed { csid }, scratch: Seq::empty(), ..d }
}

/// The channel store extended so that `csid` is present, new channels blank.
pub open spec fn grow_channels(chs: Seq<SpecChannel>, csid: int) -> Seq<SpecChannel> {
    if csid < chs.len() {
        chs
    } else {
        Seq::new(
            (csid + 1) as nat,
            |i: int|
                if i < chs.len() {
                    chs[i]
                } else {
                    default_channel()
                },
        )
    }
}

/// Applies a parsed (or inherited) message header to channel `csid` and
/// starts the chunk: format 0 replaces everything, formats 1 and 2 add a
/// timestamp delta and inherit the rest, and format 3 inherits all fields —
/// continuing the in-progress message if bytes are still owed, else starting
/// a new one by repeating the last timestamp delta. A message whose declared
/// length is zero completes immediately.
pub open spec fn spec_apply_header(
    d: SpecDemux,
    csid: u32,
    fmt: u8,
    tsv: u32,
    length: u32,
    type_id: u8,
    stream_id: u32,
) -> (SpecDemux, Option<SpecMessage>) {
    if !(csid < d.channels.len()) {
        (spec_fail(d, csid), None)
    } else {
        let ch = d.channels[csid as int];
        let ch1 = if fmt == 0 {
            SpecChannel {
                timestamp: tsv,
                last_delta: tsv,
                length,
                type_id,
                stream_id,
                bytes_owed: length,
                payload: Seq::empty(),
                has_header: true,
            }
        } else if fmt == 1 {
            SpecChannel {
                timestamp: vstd::wrapping::u32_specs::wrapping_add(ch.timestamp, tsv),
                last_delta: tsv,
                length,
                type_id,
                stream_id: ch.stream_id,
                bytes_owed: length,
                payload: Seq::empty(),
                has_header: true,
            }
        } else if fmt == 2 {
            SpecChannel {
                timestamp: vstd::wrapping::u32_specs::wrapping_add(ch.timestamp, tsv),
                last_delta: tsv,
                length: ch.length,
                type_id: ch.type_id,
                stream_id: ch.stream_id,
                bytes_owed: ch.length,
                payload: Seq::empty(),
                has_header: true,
            }
        } else if ch.bytes_owed > 0 {
            ch
        } else {
            SpecChannel {
                timestamp: vstd::wrapping::u32_specs::wrapping_add(ch.timestamp, ch.last_delta),
                bytes_owed: ch.length,
                payload: Seq::empty(),
                ..ch
            }
        };
        let d1 = SpecDemux {
            channels: d.channels.update(csid as int, ch1),
            scratch: Seq::empty(),
            ..d
        };
        if ch1.bytes_owed == 0 {
            (
                SpecDemux { phase: Phase::BasicHeader, ..d1 },
                Some(
                    SpecMessage {
                        type_id: ch1.type_id,
                        timestamp: ch1.timestamp,
                        stream_id: ch1.stream_id,
                        payload: Seq::empty(),
                    },
                ),
            )
        } else {
            let quota = if d.max_chunk_size < ch1.bytes_owed {
                d.max_chunk_size
            } else {
                ch1.bytes_owed
            };
            (SpecDemux { phase: Phase::Payload { csid, remaining: quota }, ..d1 }, None)
        }
    }
}

/// After the message header fields are known: read four more bytes if the
/// timestamp field carried the extended-timestamp sentinel, else apply.
pub open spec fn spec_header_parsed(
    d: SpecDemux,
    csid: u32,
    fmt: u8,
    tsf: u32,
    length: u32,
    type_id: u8,
    stream_id: u32,
) -> (SpecDemux, Option<SpecMessage>) {
    if fmt <= 2 && tsf == 0xFFFFFF {
        (
            SpecDemux {
                phase: Phase::ExtendedTimestamp { fmt, csid, length, type_id, stream_id },
                scratch: Seq::empty(),
                ..d
            },
            None,
        )
    } else {
        spec_apply_header(d, csid, fmt, tsf, length, type_id, stream_id)
    }
}

/// After the basic header: a continuation format on a channel that has never
/// seen a full header is a fatal framing error; formats 0 to 2 read a message
/// header next; format 3 carries no header fields at all.
pub open spec fn spec_after_basic(d: SpecDemux, fmt: u8, csid: u32) -> (
    SpecDemux,
    Option<SpecMessage>,
) {
    let chs = grow_channels(d.channels, csid as int);
    let d1 = SpecDemux { channels: chs, scratch: Seq::empty(), ..d };
    let ch = chs[csid as int];
    if fmt >= 1 && !ch.has_header {
        (spec_fail(d1, csid), None)
    } else if fmt <= 2 {
        (SpecDemux { phase: Phase::MessageHeader { fmt, csid }, ..d1 }, None)
    } else {
        spec_apply_header(d1, csid, 3, 0, ch.length, ch.type_id, ch.stream_id)
    }
}

/// How many bytes the message header of a chunk format has.
pub open spec fn header_need(fmt: u8) -> int {
    if fmt == 0 {
        11
    } else if fmt == 1 {
        7
    } else {
        3
    }
}

/// One byte of input advances the state machine and completes at most one
/// message.
pub open spec fn spec_step(d: SpecDemux, b: u8) -> (SpecDemux, Option<SpecMessage>) {
    match d.phase {
        Phase::Failed { .. } => (d, None),
        Phase::BasicHeader => {
            if d.scratch.len() == 0 {
                let fmt = b / 64;
                let c0 = b % 64;
                if c0 >= 2 {
                    spec_after_basic(d, fmt, c0 as u32)
                } else {
                    (SpecDemux { scratch: seq![b], ..d }, None)
                }
            } else if d.scratch.len() == 1 {
                let fmt = d.scratch[0] / 64;
                let c0 = d.scratch[0] % 64;
                if c0 == 0 {
                    spec_after_basic(d, fmt, (64 + b) as u32)
                } else if c0 == 1 {
                    (SpecDemux { scratch: d.scratch.push(b), ..d }, None)
                } else {
                    (spec_fail(d, 0), None)
                }
            } else if d.scratch.len() == 2 && d.scratch[0] % 64 == 1 {
                let fmt = d.scratch[0] / 64;
                spec_after_basic(d, fmt, (64 + d.scratch[1] + 256 * b) as u32)
            } else {
                (spec_fail(d, 0), None)
            }
        },
        Phase::MessageHeader { fmt, csid } => {
            let sc = d.scratch.push(b);
            if sc.len() < header_need(fmt) {
                (SpecDemux { scratch: sc, ..d }, None)
            } else if !(csid < d.channels.len()) {
                (spec_fail(d, csid), None)
            } else {
                let ch = d.channels[csid as int];
                let d1 = SpecDemux { scratch: sc, ..d };
                if fmt == 0 {
                    spec_header_parsed(d1, csid, 0, be3(sc, 0), be3(sc, 3), sc[6], le4(sc, 7))
                } else if fmt == 1 {
                    spec_header_parsed(d1, csid, 1, be3(sc, 0), be3(sc, 3), sc[6], ch.stream_id)
                } else {
                    spec_header_parsed(
                        d1,
                        csid,
                        2,
                        be3(sc, 0),
                        ch.length,
                        ch.type_id,
                        ch.stream_id,
                    )
                }
            }
        },
        Phase::ExtendedTimestamp { fmt, csid, length, type_id, stream_id } => {
            let sc = d.scratch.push(b);
            if sc.len() < 4 {
                (SpecDemux { scratch: sc, ..d }, None)
            } else {
                spec_apply_header(
                    SpecDemux { scratch: sc, ..d },
                    csid,
                    fmt,
                    be4(sc, 0),
                    length,
                    type_id,
                    stream_id,
                )
            }
        },
        Phase::Payload { csid, remaining } => {
            if !(csid < d.channels.len()) {
                (spec_fail(d, csid), None)
            } else {
                let ch = d.channels[csid as int];
                if ch.bytes_owed == 0 || remaining == 0 {
                    (spec_fail(d, csid), None)
                } else {
                    let ch1 = SpecChannel {
                        payload: ch.payload.push(b),
                        bytes_owed: (ch.bytes_owed - 1) as u32,
                        ..ch
                    };
                    if ch1.bytes_owed == 0 {
                        let msg = SpecMessage {
                            type_id: ch1.type_id,
                            timestamp: ch1.timestamp,
                            stream_id: ch1.stream_id,
                            payload: ch1.payload,
                        };
                        let ch2 = SpecChannel { payload: Seq::empty(), ..ch1 };
                        (
                            SpecDemux {
                                phase: Phase::BasicHeader,
                                channels: d.channels.update(csid as int, ch2),
                                ..d
                            },
                            Some(msg),
                        )
                    } else {
                        let d1 = SpecDemux {
                            channels: d.channels.update(csid as int, ch1),
                            ..d
                        };
                        if remaining == 1 {
                            (SpecDemux { phase: Phase::BasicHeader, ..d1 }, None)
                        } else {
                            (
                                SpecDemux {
                                    phase: Phase::Payload {
                                        csid,
                                        remaining: (remaining - 1) as u32,
                                    },
                                    ..d1
                                },
                                None,
                            )
                        }
                    }
                }
            }
        },
    }
}

/// The messages a completed step contributes.
pub open spec fn opt_msg_seq(m: Option<SpecMessage>) -> Seq<SpecMessage> {
    match m {
        Some(msg) => seq![msg],
        None => Seq::empty(),
    }
}

/// Folding `spec_step` over a byte sequence: the state afterwards and every
/// message completed along the way, in order.
pub open spec fn spec_feed(d: SpecDemux, bytes: Seq<u8>) -> (SpecDemux, Seq<SpecMessage>)
    decreases bytes.len(),
{
    if bytes.len() == 0 {
        (d, Seq::empty())
    } else {
        let first = spec_step(d, bytes[0]);
        let rest = spec_feed(first.0, bytes.drop_first());
        (rest.0, opt_msg_seq(first.1) + rest.1)
    }
}

/// Feeding a concatenation equals feeding its halves one after the other.
pub proof fn lemma_feed_concat(d: SpecDemux, a: Seq<u8>, b: Seq<u8>)
    ensures
        spec_feed(d, a + b).0 == spec_feed(spec_feed(d, a).0, b).0,
        spec_feed(d, a + b).1 == spec_feed(d, a).1 + spec_feed(spec_feed(d, a).0, b).1,
    decreases a.len(),
{
    if a.len() == 0 {
        assert(a + b =~= b);
        assert(spec_feed(d, a).1 + spec_feed(spec_feed(d, a).0, b).1 =~= spec_feed(d, b).1);
    } else {
        let first = spec_step(d, a[0]);
        assert((a + b)[0] == a[0]);
        assert((a + b).drop_first() =~= a.drop_first() + b);
        lemma_feed_concat(first.0, a.drop_first(), b);
        assert(opt_msg_seq(first.1) + (spec_feed(first.0, a.drop_first()).1 + spec_feed(
            spec_feed(first.0, a.drop_first()).0,
            b,
        ).1) =~= (opt_msg_seq(first.1) + spec_feed(first.0, a.drop_first()).1) + spec_feed(
            spec_feed(first.0, a.drop_first()).0,
            b,
        ).1);
    }
}

/// Feeding one more byte extends the fold by one step.
pub proof fn lemma_feed_snoc(d: SpecDemux, bytes: Seq<u8>, b: u8)
    ensures
        spec_feed(d, bytes.push(b)).0 == spec_step(spec_feed(d, bytes).0, b).0,
        spec_feed(d, bytes.push(b)).1 == spec_feed(d, bytes).1 + opt_msg_seq(
            spec_step(spec_feed(d, bytes).0, b).1,
        ),
{
    assert(bytes.push(b) =~= bytes + seq![b]);
    lemma_feed_concat(d, bytes, seq![b]);
    let d1 = spec_feed(d, bytes).0;
    let s1 = seq![b];
    let st = spec_step(d1, b);
    assert(s1[0] == b);
    assert(s1.drop_first() =~= Seq::<u8>::empty());
    assert(spec_feed(st.0, Seq::<u8>::empty()).0 == st.0);
    assert(spec_feed(d1, s1).0 == st.0);
    assert(spec_feed(d1, s1).1 =~= opt_msg_seq(st.1));
    assert(spec_feed(d, bytes).1 + spec_feed(d1, s1).1 =~= spec_feed(d, bytes).1 + opt_msg_seq(
        st.1,
    ));
}

/// Feeding a list of fragments one after the other.
pub open spec fn spec_feed_fragments(d: SpecDemux, frags: Seq<Seq<u8>>) -> (
    SpecDemux,
    Seq<SpecMessage>,
)
    decreases frags.len(),
{
    if frags.len() == 0 {
        (d, Seq::empty())
    } else {
        let first = spec_feed(d, frags[0]);
        let rest = spec_feed_fragments(first.0, frags.drop_first());
        (rest.0, first.1 + rest.1)
    }
}

/// Chunk-boundary independence: however a byte stream is cut into fragments,
/// feeding the fragments one at a time ends in the same state and yields
/// exactly the same messages, in the same order, as feeding the whole stream
/// at once.
pub proof fn lemma_chunk_boundary_independence(d: SpecDemux, frags: Seq<Seq<u8>>)
    ensures
        spec_feed_fragments(d, frags).0 == spec_feed(d, frags.flatten()).0,
        spec_feed_fragments(d, frags).1 == spec_feed(d, frags.flatten()).1,
    decreases frags.len(),
{
    if frags.len() == 0 {
        assert(frags.flatten() =~= Seq::<u8>::empty());
    } else {
        let first = spec_feed(d, frags[0]);
        lemma_chunk_boundary_independence(first.0, frags.drop_first());
        assert(frags.flatten() == frags[0] + frags.drop_first().flatten());
        lemma_feed_concat(d, frags[0], frags.drop_first().flatten());
    }
}

/// A chunk-size change is not retroactive: while a chunk is in progress (the
/// payload phase, with no more bytes fed than the chunk still carries),
/// changing the maximum chunk size alters neither the messages produced nor
/// anything else of the state — the chunk keeps the size in effect when it
/// started. Only chunks begun after the change see the new size.
pub proof fn lemma_chunk_size_change_not_retroactive(
    d: SpecDemux,
    size: u32,
    bytes: Seq<u8>,
)
    requires
        d.phase matches Phase::Payload { csid, remaining } ==> {
            &&& csid < d.channels.len()
            &&& remaining >= 1
            &&& remaining <= d.channels[csid as int].bytes_owed
        },
        d.phase is Payload,
        bytes.len() <= (d.phase->Payload_remaining as int),
    ensures
        spec_feed(with_max(d, size), bytes).1 == spec_feed(d, bytes).1,
        spec_feed(with_max(d, size), bytes).0 == with_max(spec_feed(d, bytes).0, size),
    decreases bytes.len(),
{
    if bytes.len() == 0 {
    } else {
        let b = bytes[0];
        let csid = d.phase->Payload_csid;
        let remaining = d.phase->Payload_remaining;
        let ch = d.channels[csid as int];
        let step_plain = spec_step(d, b);
        let step_sized = spec_step(with_max(d, size), b);
        assert(with_max(d, size).phase == d.phase);
        assert(with_max(d, size).channels == d.channels);
        assert(step_sized.0 =~= with_max(step_plain.0, size));
        assert(step_sized.1 == step_plain.1);
        let rest = bytes.drop_first();
        if remaining == 1 || (ch.bytes_owed - 1) as u32 == 0 {
            assert(ch.bytes_owed == 1 ==> remaining == 1);
            assert(bytes.len() == 1);
            assert(rest.len() == 0);
            assert(spec_feed(step_plain.0, rest).0 == step_plain.0);
            assert(spec_feed(step_sized.0, rest).0 == step_sized.0);
            assert(spec_feed(with_max(d, size), bytes).1 =~= spec_feed(d, bytes).1);
        } else {
            assert(step_plain.0.phase == (Phase::Payload {
                csid,
                remaining: (remaining - 1) as u32,
            }));
            assert(step_plain.0.channels[csid as int].bytes_owed == ch.bytes_owed - 1);
            assert(rest.len() <= remaining - 1);
            lemma_chunk_size_change_not_retroactive(step_plain.0, size, rest);
            assert(spec_feed(with_max(d, size), bytes).0 == spec_feed(step_sized.0, rest).0);
            assert(spec_feed(with_max(d, size), bytes).1 =~= opt_msg_seq(step_sized.1)
                + spec_feed(step_sized.0, rest).1);
            assert(spec_feed(d, bytes).1 =~= opt_msg_seq(step_plain.1) + spec_feed(
                step_plain.0,
                rest,
            ).1);
        }
    }
}

/// Model of a channel store.
pub open spec fn channels_view(chs: Seq<ChannelState>) -> Seq<SpecChannel> {
    Seq::new(chs.len(), |i: int| chs[i]@)
}

/// Model of an optional completed message.
pub open spec fn msg_opt_view(m: Option<Message>) -> Option<SpecMessage> {
    match m {
        Some(msg) => Some(msg@),
        None => None,
    }
}

/// Model of a list of completed messages.
pub open spec fn messages_view(ms: Seq<Message>) -> Seq<SpecMessage> {
    Seq::new(ms.len(), |i: int| ms[i]@)
}

/// The chunk-stream demultiplexer. Feed it the capture's bytes in pieces of
/// any size; complete messages come out as they finish.
pub struct Demultiplexer {
    channels: Vec<ChannelState>,
    scratch: Vec<u8>,
    phase: Phase,
    max_chunk_size: u32,
}

impl View for Demultiplexer {
    type V = SpecDemux;

    closed spec fn view(&self) -> SpecDemux {
        SpecDemux {
            phase: self.phase,
            scratch: self.scratch@,
            channels: channels_view(self.channels@),
            max_chunk_size: self.max_chunk_size,
        }
    }
}

/// A blank channel record.
fn blank_channel() -> (c: ChannelState)
    ensures
        c@ == default_channel(),
{
    ChannelState {
        timestamp: 0,
        last_delta: 0,
        length: 0,
        type_id: 0,
        stream_id: 0,
        bytes_owed: 0,
        payload: Vec::new(),
        has_header: false,
    }
}

/// Extends the channel store so that `csid` is a valid index.
fn grow(channels: &mut Vec<ChannelState>, csid: usize)
    requires
        csid < 0x10100,
    ensures
        channels_view(final(channels)@) == grow_channels(channels_view(old(channels)@), csid as int),
        final(channels)@.len() > csid,
{
    let ghost start = channels_view(channels@);
    while channels.len() <= csid
        invariant
            csid < 0x10100,
            channels@.len() >= start.len(),
            channels@.len() <= csid + 1 || channels@.len() == start.len(),
            forall|i: int| 0 <= i < start.len() ==> channels@[i]@ == start[i],
            forall|i: int| start.len() <= i < channels@.len() ==> channels@[i]@ == default_channel(),
        decreases csid + 1 - channels@.len(),
    {
        channels.push(blank_channel());
    }
    proof {
        assert(channels_view(channels@) =~= grow_channels(start, csid as int));
    }
}

impl Demultiplexer {
    /// A fresh demultiplexer, before any byte of the stream.
    pub fn new() -> (d: Demultiplexer)
        ensures
            d@ == initial_demux(),
    {
        let d = Demultiplexer {
            channels: Vec::new(),
            scratch: Vec::new(),
            phase: Phase::BasicHeader,
            max_chunk_size: 128,
        };
        proof {
            assert(d@ =~= initial_demux());
        }
        d
    }

    /// Sets the maximum chunk payload size for chunks begun from now on.
    /// A size of zero is refused, since no chunk could then carry anything.
    pub fn set_max_chunk_size(&mut self, size: u32) -> (ok: bool)
        ensures
            size >= 1 ==> ok && final(self)@ == with_max(old(self)@, size),
            size == 0 ==> !ok && final(self)@ == old(self)@,
    {
        if size == 0 {
            false
        } else {
            self.max_chunk_size = size;
            proof {
                assert(self@ =~= with_max(old(self)@, size));
            }
            true
        }
    }

    /// The channel on which a fatal framing error was met, if any.
    pub fn failed_channel(&self) -> (r: Option<u32>)
        ensures
            r == (match self@.phase {
                Phase::Failed { csid } => Some(csid),
                _ => None::<u32>,
            }),
    {
        match self.phase {
            Phase::Failed { csid } => Some(csid),
            _ => None,
        }
    }

    /// Whether input so far ends in the middle of a message: mid-header,
    /// mid-payload, or between the chunks of a message still owed bytes.
    /// The driver reports such a leftover at end of input as a truncated
    /// trailing message — distinct from a fatal framing error.
    pub fn has_incomplete_message(&self) -> (r: bool)
        ensures
            r == (!(self@.phase is BasicHeader) || self@.scratch.len() > 0 || exists|j: int|
                0 <= j < self@.channels.len() && self@.channels[j].bytes_owed > 0),
    {
        let mid_parse = match self.phase {
            Phase::BasicHeader => false,
            _ => true,
        };
        if mid_parse || self.scratch.len() > 0 {
            return true;
        }
        let mut i: usize = 0;
        while i < self.channels.len()
            invariant
                i <= self.channels@.len(),
                forall|j: int| 0 <= j < i as int ==> self@.channels[j].bytes_owed == 0,
                self@.channels.len() == self.channels@.len(),
            decreases self.channels@.len() - i,
        {
            if self.channels[i].bytes_owed > 0 {
                proof {
                    assert(self@.channels[i as int].bytes_owed > 0);
                }
                return true;
            }
            i = i + 1;
        }
        false
    }

    /// Consumes one byte, exactly as `spec_step` says.
    fn step_byte(&mut self, b: u8) -> (out: Option<Message>)
        ensures
            final(self)@ == spec_step(old(self)@, b).0,
            msg_opt_view(out) == spec_step(old(self)@, b).1,
    {
        match self.phase {
            Phase::Failed { .. } => None,
            Phase::BasicHeader => {
                if self.scratch.len() == 0 {
                    let fmt = b / 64;
                    let c0 = b % 64;
                    if c0 >= 2 {
                        self.after_basic(fmt, c0 as u32)
                    } else {
                        self.scratch.push(b);
                        proof {
                            assert(self@ =~= spec_step(old(self)@, b).0);
                        }
                        None
                    }
                } else if self.scratch.len() == 1 {
                    let b0 = self.scratch[0];
                    let fmt = b0 / 64;
                    let c0 = b0 % 64;
                    if c0 == 0 {
                        self.after_basic(fmt, 64 + b as u32)
                    } else if c0 == 1 {
                        self.scratch.push(b);
                        proof {
                            assert(self@ =~= spec_step(old(self)@, b).0);
                        }
                        None
                    } else {
                        self.fail(0)
                    }
                } else if self.scratch.len() == 2 && self.scratch[0] % 64 == 1 {
                    let fmt = self.scratch[0] / 64;
                    let csid = 64 + self.scratch[1] as u32 + 256 * (b as u32);
                    self.after_basic(fmt, csid)
                } else {
                    self.fail(0)
                }
            },
            Phase::MessageHeader { fmt, csid } => {
                self.scratch.push(b);
                let need: usize = if fmt == 0 {
                    11
                } else if fmt == 1 {
                    7
                } else {
                    3
                };
                if self.scratch.len() < need {
                    proof {
                        assert(self@ =~= spec_step(old(self)@, b).0);
                    }
                    None
                } else if csid as usize >= self.channels.len() {
                    self.fail(csid)
                } else {
                    let idx = csid as usize;
                    let inherited_length = self.channels[idx].length;
                    let inherited_type = self.channels[idx].type_id;
                    let inherited_stream = self.channels[idx].stream_id;
                    let tsf = read_be3(self.scratch.as_slice(), 0);
                    if fmt == 0 {
                        let length = read_be3(self.scratch.as_slice(), 3);
                        let type_id = self.scratch[6];
                        let stream_id = read_le4(self.scratch.as_slice(), 7);
                        self.header_parsed(csid, 0, tsf, length, type_id, stream_id)
                    } else if fmt == 1 {
                        let length = read_be3(self.scratch.as_slice(), 3);
                        let type_id = self.scratch[6];
                        self.header_parsed(csid, 1, tsf, length, type_id, inherited_stream)
                    } else {
                        self.header_parsed(
                            csid,
                            2,
                            tsf,
                            inherited_length,
                            inherited_type,
                            inherited_stream,
                        )
                    }
                }
            },
            Phase::ExtendedTimestamp { fmt, csid, length, type_id, stream_id } => {
                self.scratch.push(b);
                if self.scratch.len() < 4 {
                    proof {
                        assert(self@ =~= spec_step(old(self)@, b).0);
                    }
                    None
                } else {
                    let tsv = read_be4(self.scratch.as_slice(), 0);
                    self.apply_header(csid, fmt, tsv, length, type_id, stream_id)
                }
            },
            Phase::Payload { csid, remaining } => {
                if csid as usize >= self.channels.len() {
                    self.fail(csid)
                } else {
                    let idx = csid as usize;
                    let owed0 = self.channels[idx].bytes_owed;
                    if owed0 == 0 || remaining == 0 {
                        self.fail(csid)
                    } else {
                        let ghost pre = self@;
                        let ch = &mut self.channels[idx];
                        ch.payload.push(b);
                        ch.bytes_owed = owed0 - 1;
                        if owed0 - 1 == 0 {
                            let type_id = ch.type_id;
                            let timestamp = ch.timestamp;
                            let stream_id = ch.stream_id;
                            let mut payload: Vec<u8> = Vec::new();
                            core::mem::swap(&mut ch.payload, &mut payload);
                            self.phase = Phase::BasicHeader;
                            let msg = Message { type_id, timestamp, stream_id, payload };
                            proof {
                                assert(self@ =~= spec_step(pre, b).0);
                                assert(msg@ =~= spec_step(pre, b).1->0);
                            }
                            Some(msg)
                        } else if remaining == 1 {
                            self.phase = Phase::BasicHeader;
                            proof {
                                assert(self@ =~= spec_step(pre, b).0);
                            }
                            None
                        } else {
                            self.phase = Phase::Payload { csid, remaining: remaining - 1 };
                            proof {
                                assert(self@ =~= spec_step(pre, b).0);
                            }
                            None
                        }
                    }
                }
            },
        }
    }

    /// Enters the failed state.
    fn fail(&mut self, csid: u32) -> (out: Option<Message>)
        ensures
            final(self)@ == spec_fail(old(self)@, csid),
            out is None,
    {
        self.scratch.clear();
        self.phase = Phase::Failed { csid };
        proof {
            assert(self@ =~= spec_fail(old(self)@, csid));
        }
        None
    }

    /// Handles a completed basic header, as `spec_after_basic` says.
    fn after_basic(&mut self, fmt: u8, csid: u32) -> (out: Option<Message>)
        requires
            csid < 0x10100,
        ensures
            final(self)@ == spec_after_basic(old(self)@, fmt, csid).0,
            msg_opt_view(out) == spec_after_basic(old(self)@, fmt, csid).1,
    {
        self.scratch.clear();
        grow(&mut self.channels, csid as usize);
        let idx = csid as usize;
        let has_header = self.channels[idx].has_header;
        if fmt >= 1 && !has_header {
            self.phase = Phase::Failed { csid };
            proof {
                assert(self@ =~= spec_after_basic(old(self)@, fmt, csid).0);
            }
            None
        } else if fmt <= 2 {
            self.phase = Phase::MessageHeader { fmt, csid };
            proof {
                assert(self@ =~= spec_after_basic(old(self)@, fmt, csid).0);
            }
            None
        } else {
            let length = self.channels[idx].length;
            let type_id = self.channels[idx].type_id;
            let stream_id = self.channels[idx].stream_id;
            self.apply_header(csid, 3, 0, length, type_id, stream_id)
        }
    }

    /// Handles fully known header fields, as `spec_header_parsed` says.
    fn header_parsed(
        &mut self,
        csid: u32,
        fmt: u8,
        tsf: u32,
        length: u32,
        type_id: u8,
        stream_id: u32,
    ) -> (out: Option<Message>)
        ensures
            final(self)@ == spec_header_parsed(old(self)@, csid, fmt, tsf, length, type_id, stream_id).0,
            msg_opt_view(out) == spec_header_parsed(
                old(self)@,
                csid,
                fmt,
                tsf,
                length,
                type_id,
                stream_id,
            ).1,
    {
        if fmt <= 2 && tsf == 0xFFFFFF {
            self.scratch.clear();
            self.phase = Phase::ExtendedTimestamp { fmt, csid, length, type_id, stream_id };
            proof {
                assert(self@ =~= spec_header_parsed(
                    old(self)@,
                    csid,
                    fmt,
                    tsf,
                    length,
                    type_id,
                    stream_id,
                ).0);
            }
            None
        } else {
            self.apply_header(csid, fmt, tsf, length, type_id, stream_id)
        }
    }

    /// Applies a header and starts the chunk, as `spec_apply_header` says.
    fn apply_header(
        &mut self,
        csid: u32,
        fmt: u8,
        tsv: u32,
        length: u32,
        type_id: u8,
        stream_id: u32,
    ) -> (out: Option<Message>)
        ensures
            final(self)@ == spec_apply_header(old(self)@, csid, fmt, tsv, length, type_id, stream_id).0,
            msg_opt_view(out) == spec_apply_header(
                old(self)@,
                csid,
                fmt,
                tsv,
                length,
                type_id,
                stream_id,
            ).1,
    {
        let idx = csid as usize;
        if idx >= self.channels.len() {
            return self.fail(csid);
        }
        let ghost pre = self@;
        {
            let ch = &mut self.channels[idx];
            if fmt == 0 {
                ch.timestamp = tsv;
                ch.last_delta = tsv;
                ch.length = length;
                ch.type_id = type_id;
                ch.stream_id = stream_id;
                ch.bytes_owed = length;
                ch.payload.clear();
                ch.has_header = true;
            } else if fmt == 1 {
                ch.timestamp = ch.timestamp.wrapping_add(tsv);
                ch.last_delta = tsv;
                ch.length = length;
                ch.type_id = type_id;
                ch.bytes_owed = length;
                ch.payload.clear();
                ch.has_header = true;
            } else if fmt == 2 {
                ch.timestamp = ch.timestamp.wrapping_add(tsv);
                ch.last_delta = tsv;
                ch.bytes_owed = ch.length;
                ch.payload.clear();
                ch.has_header = true;
            } else if ch.bytes_owed == 0 {
                ch.timestamp = ch.timestamp.wrapping_add(ch.last_delta);
                ch.bytes_owed = ch.length;
                ch.payload.clear();
            }
        }
        self.scratch.clear();
        let owed = self.channels[idx].bytes_owed;
        if owed == 0 {
            let type_id1 = self.channels[idx].type_id;
            let timestamp1 = self.channels[idx].timestamp;
            let stream_id1 = self.channels[idx].stream_id;
            self.phase = Phase::BasicHeader;
            let msg = Message {
                type_id: type_id1,
                timestamp: timestamp1,
                stream_id: stream_id1,
                payload: Vec::new(),
            };
            proof {
                assert(self@ =~= spec_apply_header(pre, csid, fmt, tsv, length, type_id, stream_id).0);
                assert(msg@ =~= spec_apply_header(
                    pre,
                    csid,
                    fmt,
                    tsv,
                    length,
                    type_id,
                    stream_id,
                ).1->0);
            }
            Some(msg)
        } else {
            let quota = if self.max_chunk_size < owed {
                self.max_chunk_size
            } else {
                owed
            };
            self.phase = Phase::Payload { csid, remaining: quota };
            proof {
                assert(self@ =~= spec_apply_header(pre, csid, fmt, tsv, length, type_id, stream_id).0);
            }
            None
        }
    }

    /// Feeds a piece of the byte stream, of any size including empty, and
    /// returns the messages completed by it, in order. Later calls continue
    /// exactly where this one left off, as the fold `spec_feed` says.
    pub fn feed(&mut self, input: &[u8]) -> (out: Vec<Message>)
        ensures
            final(self)@ == spec_feed(old(self)@, input@).0,
            messages_view(out@) == spec_feed(old(self)@, input@).1,
    {
        let ghost d0 = self@;
        let mut out: Vec<Message> = Vec::new();
        let mut i: usize = 0;
        proof {
            assert(input@.subrange(0, 0) =~= Seq::<u8>::empty());
            assert(messages_view(out@) =~= Seq::<SpecMessage>::empty());
        }
        while i < input.len()
            invariant
                i <= input@.len(),
                self@ == spec_feed(d0, input@.subrange(0, i as int)).0,
                messages_view(out@) == spec_feed(d0, input@.subrange(0, i as int)).1,
            decreases input@.len() - i,
        {
            let ghost prefix = input@.subrange(0, i as int);
            let b = input[i];
            let m = self.step_byte(b);
            proof {
                lemma_feed_snoc(d0, prefix, b);
                assert(input@.subrange(0, i + 1) =~= prefix.push(b));
            }
            match m {
                Some(msg) => {
                    let ghost before = out@;
                    out.push(msg);
                    proof {
                        assert(messages_view(out@) =~= messages_view(before).push(msg@));
                        assert(messages_view(before).push(msg@) =~= messages_view(before)
                            + opt_msg_seq(msg_opt_view(Some(msg))));
                    }
                },
                None => {
                    proof {
                        assert(messages_view(out@) =~= messages_view(out@) + opt_msg_seq(
                            msg_opt_view(None::<Message>),
                        ));
                    }
                },
            }
            i = i + 1;
        }
        proof {
            assert(input@.subrange(0, input@.len() as int) =~= input@);
        }
        out
    }
}

} // verus!
