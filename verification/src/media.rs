//! The media channel. The device sends its video as datagrams, each opened by
//! an eight-byte multiplex header. Fragments of one access unit are gathered
//! until a frame-end marker arrives; the marker turns what was gathered into
//! one RTP-style packet.
//!
//! The caller owns the socket. It first looks at the head of the next
//! datagram without consuming it (the *window*), asks [`MediaHeader::parse`]
//! how long the datagram is, receives it into a buffer of that length, and
//! hands both to [`MediaIngest::accept`].

use vstd::prelude::*;
use crate::wire::{be16, be16_bytes, be32_bytes, le16, zeros};
use crate::wire::{push_all, push_be16, push_be32, push_zeros, read_be16, read_le16};

verus! {

/// Length of the multiplex header in front of every datagram.
pub const MEDIA_HEADER_LEN: usize = 8;

/// How much of a datagram the caller looks at before receiving it.
pub const WINDOW_LEN: usize = 50;

/// First byte of the media magic.
pub const MEDIA_MAGIC_0: u8 = 0xBC;

/// Second byte of the media magic.
pub const MEDIA_MAGIC_1: u8 = 0xDE;

/// Datagram kind: a fragment of the access unit being gathered.
pub const KIND_FRAGMENT: u8 = 1;

/// Datagram kind: the access unit is complete.
pub const KIND_FRAME_END: u8 = 2;

/// Where, in the window of a frame-end marker, the elapsed ticks start.
pub const TICKS_OFFSET: usize = 20;

/// How much of the window a frame-end marker needs: up to the end of the
/// elapsed ticks.
pub const MARKER_WINDOW_LEN: usize = 22;

/// Timestamp units per elapsed tick (a 90 kHz clock).
pub const TIMESTAMP_PER_TICK: u32 = 90;

/// First flag byte of an emitted packet.
pub const PACKET_FLAGS_0: u8 = 0x80;

/// Second flag byte of an emitted packet.
pub const PACKET_FLAGS_1: u8 = 0x63;

/// Length of the zero field that follows the timestamp of an emitted packet.
pub const PACKET_RESERVED_LEN: usize = 8;

/// Why a datagram was dropped. The ingest state is untouched when one of
/// these comes back.
#[derive(Clone, Copy, Debug, PartialEq, Eq, Structural)]
pub enum MalformedDatagram {
    /// The window holds fewer bytes than have to be read from it.
    TooShort { actual: usize, expected: usize },
    /// The datagram does not open with the media magic.
    BadMagic { first: u8, second: u8 },
    /// A fragment's datagram is not as long as its header declares.
    LengthMismatch { actual: usize, declared: usize },
}

/// The multiplex header in front of every datagram.
#[derive(Clone, Copy, Debug, PartialEq, Eq, Structural)]
pub struct MediaHeader {
    /// The two magic bytes as found.
    pub magic_0: u8,
    pub magic_1: u8,
    /// Payload length, not counting the header.
    pub size: u16,
    /// Two bytes that carry nothing.
    pub reserved_0: u8,
    pub reserved_1: u8,
    /// What the datagram is: the second byte of the two-byte type field.
    pub kind: u8,
}

/// The header that a window opens with, or why there is none.
pub open spec fn parse_media_header(window: Seq<u8>) -> Result<MediaHeader, MalformedDatagram> {
    if window.len() < MEDIA_HEADER_LEN {
        Err(MalformedDatagram::TooShort { actual: window.len() as usize, expected: MEDIA_HEADER_LEN })
    } else {
        Ok(
            MediaHeader {
                magic_0: window[0],
                magic_1: window[1],
                size: be16(window[2], window[3]) as u16,
                reserved_0: window[4],
                reserved_1: window[5],
                kind: window[7],
            },
        )
    }
}

impl MediaHeader {
    /// True when the header opens with the media magic.
    pub open spec fn magic_ok(self) -> bool {
        self.magic_0 == MEDIA_MAGIC_0 && self.magic_1 == MEDIA_MAGIC_1
    }

    /// Length of the whole datagram: header and payload.
    pub open spec fn spec_datagram_len(self) -> nat {
        (self.size + MEDIA_HEADER_LEN) as nat
    }

    /// Reads the header from the head of a datagram. The magic is not judged
    /// here: a datagram has to be received before it can be dropped, and this
    /// is what tells how long it is.
    pub fn parse(window: &[u8]) -> (r: Result<MediaHeader, MalformedDatagram>)
        ensures
            r == parse_media_header(window@),
    {
        if window.len() < MEDIA_HEADER_LEN {
            return Err(
                MalformedDatagram::TooShort { actual: window.len(), expected: MEDIA_HEADER_LEN },
            );
        }
        Ok(
            MediaHeader {
                magic_0: window[0],
                magic_1: window[1],
                size: read_be16(window[2], window[3]),
                reserved_0: window[4],
                reserved_1: window[5],
                kind: window[7],
            },
        )
    }

    /// True when the header opens with the media magic.
    pub fn has_magic(&self) -> (r: bool)
        ensures
            r == self.magic_ok(),
    {
        self.magic_0 == MEDIA_MAGIC_0 && self.magic_1 == MEDIA_MAGIC_1
    }

    /// Length of the whole datagram, which is the size of the buffer to
    /// receive it into.
    pub fn datagram_len(&self) -> (n: usize)
        ensures
            n == self.spec_datagram_len(),
    {
        self.size as usize + MEDIA_HEADER_LEN
    }
}

/// One output unit: a complete access unit with its place in the stream.
#[derive(Debug)]
pub struct RtpStylePacket {
    /// Counts emitted packets, modulo 65536.
    pub sequence_number: u16,
    /// Elapsed ticks of the marker, on the 90 kHz clock.
    pub timestamp: u32,
    /// The access unit.
    pub payload: Vec<u8>,
}

/// What a packet is, as plain values.
pub struct PacketView {
    pub sequence_number: u16,
    pub timestamp: u32,
    pub payload: Seq<u8>,
}

impl View for RtpStylePacket {
    type V = PacketView;

    open spec fn view(&self) -> PacketView {
        PacketView {
            sequence_number: self.sequence_number,
            timestamp: self.timestamp,
            payload: self.payload@,
        }
    }
}

/// The bytes of a packet on the wire: two flag bytes, the sequence number and
/// the timestamp most significant byte first, eight zero bytes, the payload.
pub open spec fn packet_bytes(p: PacketView) -> Seq<u8> {
    seq![PACKET_FLAGS_0, PACKET_FLAGS_1] + be16_bytes(p.sequence_number) + be32_bytes(p.timestamp)
        + zeros(PACKET_RESERVED_LEN as nat) + p.payload
}

impl RtpStylePacket {
    /// The packet as it goes on the wire.
    pub fn encode(&self) -> (out: Vec<u8>)
        ensures
            out@ == packet_bytes(self@),
    {
        let mut out: Vec<u8> = Vec::new();
        out.push(PACKET_FLAGS_0);
        out.push(PACKET_FLAGS_1);
        assert(out@ =~= seq![PACKET_FLAGS_0, PACKET_FLAGS_1]);
        push_be16(&mut out, self.sequence_number);
        push_be32(&mut out, self.timestamp);
        push_zeros(&mut out, PACKET_RESERVED_LEN);
        push_all(&mut out, self.payload.as_slice());
        out
    }
}

/// The ingest state as plain values.
pub struct IngestState {
    /// Sequence number that the next packet will carry.
    pub sequence: u16,
    /// The fragments gathered since the last marker, in arrival order.
    pub frame: Seq<u8>,
}

/// What one datagram does: the state afterwards, and what comes out.
pub struct StepView {
    pub next: IngestState,
    pub outcome: Result<Option<PacketView>, MalformedDatagram>,
}

/// The state before anything has arrived.
pub open spec fn initial_ingest() -> IngestState {
    IngestState { sequence: 0, frame: Seq::empty() }
}

/// The sequence number after `s`, wrapping from 65535 to 0.
pub open spec fn next_sequence(s: u16) -> u16 {
    ((s + 1) % 0x1_0000) as u16
}

/// The timestamp that a marker's window gives: its elapsed ticks, read least
/// significant byte first, on the 90 kHz clock.
pub open spec fn marker_timestamp(window: Seq<u8>) -> u32
    recommends
        window.len() >= MARKER_WINDOW_LEN,
{
    (le16(window[TICKS_OFFSET as int], window[TICKS_OFFSET + 1]) * TIMESTAMP_PER_TICK) as u32
}

/// The rule of the ingest: what the datagram with this window and these
/// received bytes does in state `s`.
///
/// A window too short for a header, and one that does not open with the
/// magic, are malformed. A fragment must be exactly as long as its header
/// declares; its payload is appended. A frame-end marker needs a window that
/// reaches the elapsed ticks; it emits the gathered frame under the current
/// sequence number, advances the number and clears the frame. Any other kind
/// is ignored. A malformed datagram leaves the state as it was.
pub open spec fn ingest_step(s: IngestState, window: Seq<u8>, datagram: Seq<u8>) -> StepView {
    match parse_media_header(window) {
        Err(e) => StepView { next: s, outcome: Err(e) },
        Ok(h) => {
            if !h.magic_ok() {
                StepView {
                    next: s,
                    outcome: Err(
                        MalformedDatagram::BadMagic { first: h.magic_0, second: h.magic_1 },
                    ),
                }
            } else if h.kind == KIND_FRAGMENT {
                if datagram.len() != h.spec_datagram_len() {
                    StepView {
                        next: s,
                        outcome: Err(
                            MalformedDatagram::LengthMismatch {
                                actual: datagram.len() as usize,
                                declared: h.spec_datagram_len() as usize,
                            },
                        ),
                    }
                } else {
                    StepView {
                        next: IngestState {
                            sequence: s.sequence,
                            frame: s.frame + datagram.skip(MEDIA_HEADER_LEN as int),
                        },
                        outcome: Ok(None),
                    }
                }
            } else if h.kind == KIND_FRAME_END {
                if window.len() < MARKER_WINDOW_LEN {
                    StepView {
                        next: s,
                        outcome: Err(
                            MalformedDatagram::TooShort {
                                actual: window.len() as usize,
                                expected: MARKER_WINDOW_LEN,
                            },
                        ),
                    }
                } else {
                    StepView {
                        next: IngestState {
                            sequence: next_sequence(s.sequence),
                            frame: Seq::empty(),
                        },
                        outcome: Ok(
                            Some(
                                PacketView {
                                    sequence_number: s.sequence,
                                    timestamp: marker_timestamp(window),
                                    payload: s.frame,
                                },
                            ),
                        ),
                    }
                }
            } else {
                StepView { next: s, outcome: Ok(None) }
            }
        },
    }
}

/// An outcome with its packet, if any, as plain values.
pub open spec fn outcome_view(
    r: Result<Option<RtpStylePacket>, MalformedDatagram>,
) -> Result<Option<PacketView>, MalformedDatagram> {
    match r {
        Ok(Some(p)) => Ok(Some(p@)),
        Ok(None) => Ok(None),
        Err(e) => Err(e),
    }
}

/// Gathers fragments and numbers the packets. One value lives as long as the
/// media session.
#[derive(Debug)]
pub struct MediaIngest {
    sequence: u16,
    frame: Vec<u8>,
}

impl View for MediaIngest {
    type V = IngestState;

    closed spec fn view(&self) -> IngestState {
        IngestState { sequence: self.sequence, frame: self.frame@ }
    }
}

impl MediaIngest {
    /// An ingest that has seen nothing: the first packet gets number 0.
    pub fn new() -> (r: MediaIngest)
        ensures
            r@ == initial_ingest(),
    {
        MediaIngest { sequence: 0, frame: Vec::new() }
    }

    /// Sequence number that the next packet will carry.
    pub fn sequence(&self) -> (n: u16)
        ensures
            n == self@.sequence,
    {
        self.sequence
    }

    /// The fragments gathered since the last marker.
    pub fn frame(&self) -> (bytes: &[u8])
        ensures
            bytes@ == self@.frame,
    {
        self.frame.as_slice()
    }

    /// Takes one datagram: `window` is what was seen of it before it was
    /// received, `datagram` the buffer it was received into. Returns the
    /// packet to send on, if the datagram completed one.
    pub fn accept(&mut self, window: &[u8], datagram: &[u8]) -> (r: Result<
        Option<RtpStylePacket>,
        MalformedDatagram,
    >)
        ensures
            final(self)@ == ingest_step(old(self)@, window@, datagram@).next,
            outcome_view(r) == ingest_step(old(self)@, window@, datagram@).outcome,
    {
        let header = match MediaHeader::parse(window) {
            Ok(h) => h,
            Err(e) => {
                return Err(e);
            },
        };
        if !header.has_magic() {
            return Err(
                MalformedDatagram::BadMagic { first: header.magic_0, second: header.magic_1 },
            );
        }
        if header.kind == KIND_FRAGMENT {
            let declared = header.datagram_len();
            if datagram.len() != declared {
                return Err(
                    MalformedDatagram::LengthMismatch { actual: datagram.len(), declared },
                );
            }
            let fragment = vstd::slice::slice_subrange(datagram, MEDIA_HEADER_LEN, datagram.len());
            push_all(&mut self.frame, fragment);
            assert(fragment@ =~= datagram@.skip(MEDIA_HEADER_LEN as int));
            Ok(None)
        } else if header.kind == KIND_FRAME_END {
            if window.len() < MARKER_WINDOW_LEN {
                return Err(
                    MalformedDatagram::TooShort {
                        actual: window.len(),
                        expected: MARKER_WINDOW_LEN,
                    },
                );
            }
            let ticks = read_le16(window[TICKS_OFFSET], window[TICKS_OFFSET + 1]);
            let timestamp = (ticks as u32) * TIMESTAMP_PER_TICK;
            let mut payload: Vec<u8> = Vec::new();
            std::mem::swap(&mut payload, &mut self.frame);
            let packet = RtpStylePacket { sequence_number: self.sequence, timestamp, payload };
            self.sequence = if self.sequence == u16::MAX {
                0
            } else {
                self.sequence + 1
            };
            Ok(Some(packet))
        } else {
            Ok(None)
        }
    }
}

/// One datagram as the ingest meets it: what was seen of it beforehand, and
/// the buffer it was received into.
pub struct Arrival {
    pub window: Seq<u8>,
    pub datagram: Seq<u8>,
}

/// Where a run of datagrams leads, and the packets it emits, in order.
pub struct RunView {
    pub end: IngestState,
    pub packets: Seq<PacketView>,
}

/// The ingest rule applied to a whole run of datagrams, starting in `s`.
pub open spec fn ingest_run(s: IngestState, arrivals: Seq<Arrival>) -> RunView
    decreases arrivals.len(),
{
    if arrivals.len() == 0 {
        RunView { end: s, packets: Seq::empty() }
    } else {
        let before = ingest_run(s, arrivals.drop_last());
        let step = ingest_step(before.end, arrivals.last().window, arrivals.last().datagram);
        RunView {
            end: step.next,
            packets: match step.outcome {
                Ok(Some(p)) => before.packets.push(p),
                _ => before.packets,
            },
        }
    }
}

/// The payloads of a run of datagrams, one after the other.
pub open spec fn payloads(arrivals: Seq<Arrival>) -> Seq<u8>
    decreases arrivals.len(),
{
    if arrivals.len() == 0 {
        Seq::empty()
    } else {
        payloads(arrivals.drop_last()) + arrivals.last().datagram.skip(MEDIA_HEADER_LEN as int)
    }
}

/// True of the window of a frame-end marker that the ingest accepts.
pub open spec fn is_frame_end(window: Seq<u8>) -> bool {
    &&& window.len() >= MARKER_WINDOW_LEN
    &&& window[0] == MEDIA_MAGIC_0
    &&& window[1] == MEDIA_MAGIC_1
    &&& window[7] == KIND_FRAME_END
}

/// True of a fragment that the ingest accepts: its datagram is as long as
/// its header declares.
pub open spec fn is_fragment(a: Arrival) -> bool {
    &&& a.window.len() >= MEDIA_HEADER_LEN
    &&& a.window[0] == MEDIA_MAGIC_0
    &&& a.window[1] == MEDIA_MAGIC_1
    &&& a.window[7] == KIND_FRAGMENT
    &&& a.datagram.len() == be16(a.window[2], a.window[3]) + MEDIA_HEADER_LEN
}

/// A datagram that is dropped as malformed changes nothing.
pub proof fn lemma_malformed_changes_nothing(s: IngestState, window: Seq<u8>, datagram: Seq<u8>)
    requires
        ingest_step(s, window, datagram).outcome is Err,
    ensures
        ingest_step(s, window, datagram).next == s,
{
}

/// A packet is emitted by accepted frame-end markers and by nothing else.
pub proof fn lemma_only_markers_emit(s: IngestState, window: Seq<u8>, datagram: Seq<u8>)
    ensures
        is_frame_end(window) <==> ingest_step(s, window, datagram).outcome matches Ok(Some(_)),
{
}

/// Counting on by one commutes with wrapping at 65536.
proof fn lemma_wrap_successor(a: int)
    requires
        0 <= a,
    ensures
        ((a % 0x1_0000) + 1) % 0x1_0000 == (a + 1) % 0x1_0000,
{
}

/// Two numbers less than 65536 apart stay apart when wrapped at 65536.
proof fn lemma_wrap_distinct(a: int, b: int)
    requires
        0 <= a < b,
        b - a < 0x1_0000,
    ensures
        a % 0x1_0000 != b % 0x1_0000,
{
    let qa = a / 0x1_0000;
    let qb = b / 0x1_0000;
    assert(a == 0x1_0000 * qa + a % 0x1_0000);
    assert(b == 0x1_0000 * qb + b % 0x1_0000);
    if a % 0x1_0000 == b % 0x1_0000 {
        assert(b - a == 0x1_0000 * (qb - qa));
        assert(qb - qa >= 1 || qb - qa <= 0);
    }
}

/// Whatever arrives, the packets that come out are numbered without repeats
/// or gaps: the k-th packet of a run carries the starting number plus k,
/// modulo 65536, each number is the successor of the one before, and the
/// state ends on the number after the last.
pub proof fn lemma_sequence_numbers_count_up(s: IngestState, arrivals: Seq<Arrival>)
    ensures
        ingest_run(s, arrivals).end.sequence == (s.sequence + ingest_run(s, arrivals).packets.len())
            % 0x1_0000,
        forall|k: int|
            0 <= k < ingest_run(s, arrivals).packets.len() ==> (#[trigger] ingest_run(
                s,
                arrivals,
            ).packets[k]).sequence_number == (s.sequence + k) % 0x1_0000,
        forall|k: int|
            0 < k < ingest_run(s, arrivals).packets.len() ==> (#[trigger] ingest_run(
                s,
                arrivals,
            ).packets[k]).sequence_number == next_sequence(
                ingest_run(s, arrivals).packets[k - 1].sequence_number,
            ),
    decreases arrivals.len(),
{
    let run = ingest_run(s, arrivals);
    if arrivals.len() > 0 {
        let before = ingest_run(s, arrivals.drop_last());
        lemma_sequence_numbers_count_up(s, arrivals.drop_last());
        let n = before.packets.len() as int;
        lemma_wrap_successor(s.sequence + n);
        assert forall|k: int| 0 <= k < run.packets.len() implies (#[trigger] run.packets[k]).sequence_number
            == (s.sequence + k) % 0x1_0000 by {
            if k < n {
                assert(run.packets[k] == before.packets[k]);
            }
        }
        assert forall|k: int| 0 < k < run.packets.len() implies (#[trigger] run.packets[k]).sequence_number
            == next_sequence(run.packets[k - 1].sequence_number) by {
            lemma_wrap_successor(s.sequence + k - 1);
        }
    }
}

/// Two packets of one run that are fewer than 65536 packets apart carry
/// different sequence numbers.
pub proof fn lemma_sequence_numbers_differ(s: IngestState, arrivals: Seq<Arrival>, j: int, k: int)
    requires
        0 <= j < k < ingest_run(s, arrivals).packets.len(),
        k - j < 0x1_0000,
    ensures
        ingest_run(s, arrivals).packets[j].sequence_number != ingest_run(
            s,
            arrivals,
        ).packets[k].sequence_number,
{
    lemma_sequence_numbers_count_up(s, arrivals);
    lemma_wrap_distinct(s.sequence + j, s.sequence + k);
}

/// A run of nothing but frame-end markers emits one packet for each, and from
/// the initial state the k-th of them carries the number k modulo 65536.
pub proof fn lemma_markers_emit_one_each(s: IngestState, arrivals: Seq<Arrival>)
    requires
        forall|i: int| 0 <= i < arrivals.len() ==> is_frame_end(#[trigger] arrivals[i].window),
    ensures
        ingest_run(s, arrivals).packets.len() == arrivals.len(),
        arrivals.len() > 0 ==> ingest_run(s, arrivals).end.frame.len() == 0,
        s == initial_ingest() ==> forall|k: int|
            0 <= k < arrivals.len() ==> (#[trigger] ingest_run(s, arrivals).packets[k]).sequence_number
                == k % 0x1_0000,
    decreases arrivals.len(),
{
    if arrivals.len() > 0 {
        let front = arrivals.drop_last();
        assert forall|i: int| 0 <= i < front.len() implies is_frame_end(
            #[trigger] front[i].window,
        ) by {
            assert(front[i] == arrivals[i]);
        }
        lemma_markers_emit_one_each(s, front);
        assert(is_frame_end(arrivals[arrivals.len() - 1].window));
        lemma_sequence_numbers_count_up(s, arrivals);
    }
}

/// Fragments emit nothing and leave the sequence number alone; what is
/// gathered grows by their payloads, in arrival order.
pub proof fn lemma_fragments_gather(s: IngestState, fragments: Seq<Arrival>)
    requires
        forall|i: int| 0 <= i < fragments.len() ==> is_fragment(#[trigger] fragments[i]),
    ensures
        ingest_run(s, fragments).packets.len() == 0,
        ingest_run(s, fragments).end.sequence == s.sequence,
        ingest_run(s, fragments).end.frame == s.frame + payloads(fragments),
    decreases fragments.len(),
{
    if fragments.len() > 0 {
        let front = fragments.drop_last();
        let last = fragments.last();
        assert forall|i: int| 0 <= i < front.len() implies is_fragment(#[trigger] front[i]) by {
            assert(front[i] == fragments[i]);
        }
        lemma_fragments_gather(s, front);
        assert(is_fragment(fragments[fragments.len() - 1]));
        let before = ingest_run(s, front);
        let step = ingest_step(before.end, last.window, last.datagram);
        assert(step.outcome == Ok::<Option<PacketView>, MalformedDatagram>(None));
        assert(step.next.frame == before.end.frame + last.datagram.skip(MEDIA_HEADER_LEN as int));
        assert(step.next.frame =~= s.frame + payloads(fragments));
    } else {
        assert(s.frame + payloads(fragments) =~= s.frame);
    }
}

/// Fragments followed by a frame-end marker give one packet, whose payload is
/// what was gathered before followed by the fragments' payloads in arrival
/// order, and leave nothing gathered.
pub proof fn lemma_fragments_then_marker(s: IngestState, fragments: Seq<Arrival>, marker: Arrival)
    requires
        forall|i: int| 0 <= i < fragments.len() ==> is_fragment(#[trigger] fragments[i]),
        is_frame_end(marker.window),
    ensures
        ingest_run(s, fragments.push(marker)).packets.len() == 1,
        ingest_run(s, fragments.push(marker)).packets[0] == (PacketView {
            sequence_number: s.sequence,
            timestamp: marker_timestamp(marker.window),
            payload: s.frame + payloads(fragments),
        }),
        ingest_run(s, fragments.push(marker)).end == (IngestState {
            sequence: next_sequence(s.sequence),
            frame: Seq::empty(),
        }),
{
    lemma_fragments_gather(s, fragments);
    let all = fragments.push(marker);
    assert(all.drop_last() =~= fragments);
    assert(all.last() == marker);
    let before = ingest_run(s, fragments);
    let step = ingest_step(before.end, marker.window, marker.datagram);
    assert(step.outcome matches Ok(Some(_)));
    assert(ingest_run(s, all).packets == before.packets.push(step.outcome->Ok_0->Some_0));
}

} // verus!
