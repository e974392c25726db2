//! Replay of a recorded packet trace: which packets are decoded, which losses are concealed
//! and what is reported about them.
//!
//! A [`TraceSession`] is driven one frame at a time. Receiving a frame accounts for it and,
//! when the frame is played, leaves a queue of decode requests: one concealment request per
//! packet lost before it, then the packet itself. Each request is answered with the PCM that
//! the decoder produced.
use vstd::prelude::*;

use crate::audio::{duration_ms, interleaved_len, pcm_duration_ms};
use crate::payload::{base64_standard, decode_payload, payload_of, PayloadError};
use crate::rtp::{rtp_sequence_delta, sequence_delta};
use crate::text::{decimal, push_decimal};
use crate::{FRAME_MS, FRAME_SAMPLES, SAMPLE_RATE};

verus! {

/// Gaps listed one by one in the report; later ones are only counted.
pub const MAX_REPORTED_TRACE_GAPS: usize = 100;

/// Sequence distances from here on mean that a packet arrived behind the last one played.
pub const LATE_DELTA: u16 = 0x8000;

/// Samples per channel that one packet can hold at most: three frames.
pub const MAX_PACKET_SAMPLES: usize = 3 * FRAME_SAMPLES;

/// The sequence number and timestamp of one packet.
#[derive(Debug, Clone, Copy, PartialEq, Eq, Structural)]
pub struct PacketMark {
    pub sequence: u16,
    pub timestamp: u32,
}

/// How a packet relates to the last one that was played.
#[derive(Debug, Clone, Copy, PartialEq, Eq, Structural)]
pub enum Arrival {
    /// Nothing was played before.
    First,
    /// The last packet again.
    Duplicate,
    /// A packet from behind the last one.
    Late,
    /// A packet from ahead, with this many packets lost in between.
    Ahead { missing: u16 },
}

/// How a packet numbered `sequence` relates to `last`.
pub open spec fn arrival(last: Option<u16>, sequence: u16) -> Arrival {
    match last {
        None => Arrival::First,
        Some(previous) => {
            let delta = sequence_delta(sequence, previous);
            if delta == 0 {
                Arrival::Duplicate
            } else if delta >= LATE_DELTA {
                Arrival::Late
            } else {
                Arrival::Ahead { missing: (delta - 1) as u16 }
            }
        },
    }
}

/// Decides how a packet numbered `sequence` relates to the last one that was played.
pub fn classify_arrival(last: Option<u16>, sequence: u16) -> (kind: Arrival)
    ensures
        kind == arrival(last, sequence),
        last is None <==> kind == Arrival::First,
        match last {
            None => true,
            Some(previous) => {
                let delta = (sequence - previous) % 0x1_0000;
                &&& delta == 0 <==> kind == Arrival::Duplicate
                &&& delta >= 0x8000 <==> kind == Arrival::Late
                &&& 0 < delta < 0x8000 ==> kind is Ahead && kind->missing == delta - 1
            },
        },
{
    match last {
        None => Arrival::First,
        Some(previous) => {
            let delta = rtp_sequence_delta(sequence, previous);
            if delta == 0 {
                Arrival::Duplicate
            } else if delta >= LATE_DELTA {
                Arrival::Late
            } else {
                Arrival::Ahead { missing: delta - 1 }
            }
        },
    }
}

/// A run of lost packets, as reported.
#[derive(Debug, Clone, Copy, PartialEq, Eq, Structural)]
pub struct DecodeTraceGap {
    pub previous_sequence: u16,
    pub sequence: u16,
    pub missing_packets: usize,
    pub offset_ms: u64,
    pub missing_duration_ms: u64,
}

/// A run of lost packets between two played ones.
pub struct Gap {
    pub previous: u16,
    pub sequence: u16,
    pub missing: nat,
    pub offset_ms: nat,
    pub duration_ms: nat,
}

impl View for DecodeTraceGap {
    type V = Gap;

    open spec fn view(&self) -> Gap {
        Gap {
            previous: self.previous_sequence,
            sequence: self.sequence,
            missing: self.missing_packets as nat,
            offset_ms: self.offset_ms as nat,
            duration_ms: self.missing_duration_ms as nat,
        }
    }
}

/// What is known of a trace after some of its packets.
#[verifier::ext_equal]
pub struct TraceCounts {
    pub received: nat,
    pub decoded: nat,
    pub concealed: nat,
    pub gap_events: nat,
    pub longest_loss: nat,
    pub duplicates: nat,
    pub late: nat,
    pub first: Option<PacketMark>,
    pub last: Option<PacketMark>,
    pub gaps: Seq<Gap>,
    pub gaps_truncated: bool,
}

impl TraceCounts {
    /// Before the first packet.
    pub open spec fn empty() -> TraceCounts {
        TraceCounts {
            received: 0,
            decoded: 0,
            concealed: 0,
            gap_events: 0,
            longest_loss: 0,
            duplicates: 0,
            late: 0,
            first: None,
            last: None,
            gaps: Seq::empty(),
            gaps_truncated: false,
        }
    }

    /// How a packet would relate to what was played so far.
    pub open spec fn arrival(self, sequence: u16) -> Arrival {
        arrival(sequence_of(self.last), sequence)
    }

    /// The packets that were neither duplicate nor late.
    pub open spec fn accepted(self) -> int {
        self.received - self.duplicates - self.late
    }

    /// Accounts for `missing` packets, at least one, lost before the one numbered `sequence`.
    pub open spec fn lose(self, missing: nat, sequence: u16) -> TraceCounts {
        let listed = self.gaps.len() < MAX_REPORTED_TRACE_GAPS;
        TraceCounts {
            concealed: self.concealed + missing,
            gap_events: self.gap_events + 1,
            longest_loss: if self.longest_loss < missing {
                missing
            } else {
                self.longest_loss
            },
            gaps: if listed {
                self.gaps.push(
                    Gap {
                        previous: self.last->0.sequence,
                        sequence,
                        missing,
                        offset_ms: self.decoded * FRAME_MS as nat,
                        duration_ms: missing * FRAME_MS as nat,
                    },
                )
            } else {
                self.gaps
            },
            gaps_truncated: self.gaps_truncated || !listed,
            ..self
        }
    }

    /// Accounts for the arrival of a packet, before anything is decoded for it.
    pub open spec fn receive(self, mark: PacketMark) -> TraceCounts {
        let counted = TraceCounts { received: self.received + 1, ..self };
        match self.arrival(mark.sequence) {
            Arrival::First => TraceCounts { first: Some(mark), ..counted },
            Arrival::Duplicate => TraceCounts { duplicates: self.duplicates + 1, ..counted },
            Arrival::Late => TraceCounts { late: self.late + 1, ..counted },
            Arrival::Ahead { missing } => if missing == 0 {
                counted
            } else {
                counted.lose(missing as nat, mark.sequence)
            },
        }
    }

    /// Accounts for the decoding of a packet and of the `missing` ones before it.
    pub open spec fn play(self, missing: nat, mark: PacketMark) -> TraceCounts {
        TraceCounts { decoded: self.decoded + missing + 1, last: Some(mark), ..self }
    }

    /// Accounts for a packet completely: its arrival, and the decoding it leads to.
    pub open spec fn hear(self, mark: PacketMark) -> TraceCounts {
        match self.arrival(mark.sequence) {
            Arrival::First => self.receive(mark).play(0, mark),
            Arrival::Ahead { missing } => self.receive(mark).play(missing as nat, mark),
            _ => self.receive(mark),
        }
    }
}

/// What is known of a trace after all the packets in `marks`.
pub open spec fn trace_counts(marks: Seq<PacketMark>) -> TraceCounts
    decreases marks.len(),
{
    if marks.len() == 0 {
        TraceCounts::empty()
    } else {
        trace_counts(marks.drop_last()).hear(marks.last())
    }
}

/// All packets missing in `gaps`.
pub open spec fn total_missing(gaps: Seq<Gap>) -> nat
    decreases gaps.len(),
{
    if gaps.len() == 0 {
        0
    } else {
        total_missing(gaps.drop_last()) + gaps.last().missing
    }
}

/// Decode requests that are still to be answered: `missing` losses, then the packet `mark`.
pub struct Queue {
    pub missing: nat,
    pub mark: PacketMark,
    pub payload: Seq<u8>,
}

/// What a session holds.
pub struct SessionState {
    pub channels: u8,
    pub counts: TraceCounts,
    pub queue: Option<Queue>,
    pub pcm: Seq<i16>,
}

impl SessionState {
    /// Before the first packet.
    pub open spec fn empty(channels: u8) -> SessionState {
        SessionState {
            channels,
            counts: TraceCounts::empty(),
            queue: None,
            pcm: Seq::empty(),
        }
    }

    /// After a packet arrived, with nothing decoded for it yet.
    pub open spec fn receive(self, mark: PacketMark, payload: Seq<u8>) -> SessionState {
        SessionState {
            counts: self.counts.receive(mark),
            queue: match self.counts.arrival(mark.sequence) {
                Arrival::First => Some(Queue { missing: 0, mark, payload }),
                Arrival::Ahead { missing } => Some(
                    Queue { missing: missing as nat, mark, payload },
                ),
                _ => None,
            },
            ..self
        }
    }

    /// After the request at the head of the queue was answered with `samples`.
    pub open spec fn complete(self, samples: Seq<i16>) -> SessionState {
        let queue = self.queue->0;
        let counts = TraceCounts { decoded: self.counts.decoded + 1, ..self.counts };
        let pcm = self.pcm + samples;
        if queue.missing > 0 {
            SessionState {
                counts,
                queue: Some(Queue { missing: (queue.missing - 1) as nat, ..queue }),
                pcm,
                ..self
            }
        } else {
            SessionState {
                counts: TraceCounts { last: Some(queue.mark), ..counts },
                queue: None,
                pcm,
                ..self
            }
        }
    }

    /// Decode requests that are still to be answered.
    pub open spec fn outstanding(self) -> nat {
        match self.queue {
            Some(queue) => queue.missing + 1,
            None => 0,
        }
    }

    /// The payloads that the decoder is still to be given, in order; an empty one for each loss.
    pub open spec fn requests(self) -> Seq<Seq<u8>> {
        match self.queue {
            Some(queue) => Seq::new(queue.missing, |i: int| Seq::<u8>::empty()).push(queue.payload),
            None => Seq::empty(),
        }
    }

    /// The counters can take a packet numbered `sequence`.
    pub open spec fn has_room(self, sequence: u16) -> bool {
        &&& self.counts.received < usize::MAX
        &&& match self.counts.arrival(sequence) {
            Arrival::Ahead { missing } => {
                &&& self.counts.decoded + missing + 1 <= usize::MAX
                &&& (missing > 0 && self.counts.gaps.len() < MAX_REPORTED_TRACE_GAPS
                    ==> self.counts.decoded * FRAME_MS <= u64::MAX)
            },
            _ => true,
        }
    }
}

/// How far a packet lies ahead says how it arrives: at no distance it is the last one again, up to
/// half the circle it comes from ahead and all in between are lost, and from there on it is late.
pub proof fn law_arrival_by_distance(previous: u16, steps: nat, sequence: u16)
    requires
        steps < 0x1_0000,
        sequence == (previous + steps) % 0x1_0000,
    ensures
        arrival(None, sequence) == Arrival::First,
        steps == 0 ==> arrival(Some(previous), sequence) == Arrival::Duplicate,
        0 < steps < 0x8000 ==> arrival(Some(previous), sequence) == (Arrival::Ahead {
            missing: (steps - 1) as u16,
        }),
        steps >= 0x8000 ==> arrival(Some(previous), sequence) == Arrival::Late,
{
}

/// Of two packets that differ, the second comes from ahead of the first exactly if the first would
/// be late behind the second; only half the circle apart both are late.
pub proof fn law_ahead_one_way_is_late_the_other(first: u16, second: u16)
    ensures
        arrival(Some(first), second) is Ahead ==> arrival(Some(second), first) == Arrival::Late,
        arrival(Some(first), second) == Arrival::Duplicate <==> first == second,
        arrival(Some(first), second) == Arrival::Late && arrival(Some(second), first)
            == Arrival::Late <==> (second - first) % 0x1_0000 == 0x8000,
{
}

/// A packet that arrives leaves the sound and the last packet played as they were, and is counted.
/// The first one, and one from ahead, is asked for behind an empty request for each packet lost;
/// for one again, or a late one, nothing is asked. What is lost makes one gap, which is reported
/// while fewer than a hundred are: between the two packets, from where the replay stands on, and
/// for as long as what is missing lasts.
pub proof fn law_received_packet(state: SessionState, mark: PacketMark, payload: Seq<u8>)
    requires
        state.queue is None,
    ensures
        ({
            let after = state.receive(mark, payload);
            let before = state.counts;
            let counts = after.counts;
            &&& after.channels == state.channels
            &&& after.pcm == state.pcm
            &&& counts.received == before.received + 1
            &&& counts.decoded == before.decoded
            &&& counts.last == before.last
            &&& match before.last {
                None => {
                    &&& counts == (TraceCounts {
                        received: before.received + 1,
                        first: Some(mark),
                        ..before
                    })
                    &&& after.requests() == seq![payload]
                    &&& after.queue == Some(Queue { missing: 0, mark, payload })
                },
                Some(last) => {
                    let delta = (mark.sequence - last.sequence) % 0x1_0000;
                    &&& counts.first == before.first
                    &&& delta == 0 ==> after.requests().len() == 0 && after.queue is None
                        && counts == (TraceCounts {
                        received: before.received + 1,
                        duplicates: before.duplicates + 1,
                        ..before
                    })
                    &&& delta >= 0x8000 ==> after.requests().len() == 0 && after.queue is None
                        && counts == (TraceCounts {
                        received: before.received + 1,
                        late: before.late + 1,
                        ..before
                    })
                    &&& 0 < delta < 0x8000 ==> {
                        &&& after.requests().len() == delta
                        &&& after.requests().last() == payload
                        &&& forall|i: int|
                            0 <= i < delta - 1 ==> (#[trigger] after.requests()[i]).len() == 0
                        &&& after.queue == Some(
                            Queue { missing: (delta - 1) as nat, mark, payload },
                        )
                        &&& counts.concealed == before.concealed + delta - 1
                        &&& counts.duplicates == before.duplicates
                        &&& counts.late == before.late
                        &&& delta == 1 ==> {
                            &&& counts.gap_events == before.gap_events
                            &&& counts.longest_loss == before.longest_loss
                            &&& counts.gaps == before.gaps
                            &&& counts.gaps_truncated == before.gaps_truncated
                        }
                        &&& delta > 1 ==> {
                            &&& counts.gap_events == before.gap_events + 1
                            &&& counts.longest_loss == if before.longest_loss < delta - 1 {
                                delta - 1
                            } else {
                                before.longest_loss as int
                            }
                        }
                        &&& delta > 1 && before.gaps.len() < 100 ==> {
                            &&& counts.gaps_truncated == before.gaps_truncated
                            &&& counts.gaps == before.gaps.push(
                                Gap {
                                    previous: last.sequence,
                                    sequence: mark.sequence,
                                    missing: (delta - 1) as nat,
                                    offset_ms: before.decoded * 20,
                                    duration_ms: ((delta - 1) * 20) as nat,
                                },
                            )
                        }
                        &&& delta > 1 && before.gaps.len() >= 100 ==> counts.gaps_truncated
                            && counts.gaps == before.gaps
                    }
                },
            }
        }),
{
    assert(Seq::new(0, |i: int| Seq::<u8>::empty()).push(payload) =~= seq![payload]);
}

/// An answer is appended to the sound and counts one frame; the last answer for a packet makes it
/// the last packet played. Nothing else changes.
pub proof fn law_answered_request(state: SessionState, samples: Seq<i16>)
    requires
        state.queue is Some,
    ensures
        ({
            let after = state.complete(samples);
            &&& after.channels == state.channels
            &&& after.pcm == state.pcm + samples
            &&& after.outstanding() + 1 == state.outstanding()
            &&& after.queue is Some ==> after.queue->0.mark == state.queue->0.mark
                && after.queue->0.payload == state.queue->0.payload
            &&& after.counts == (TraceCounts {
                decoded: state.counts.decoded + 1,
                last: if state.outstanding() == 1 {
                    Some(state.queue->0.mark)
                } else {
                    state.counts.last
                },
                ..state.counts
            })
        }),
{
}

/// There is room for a packet wherever the counts that it can lead to fit their counters; for one
/// that is not decoded the count of packets is all that matters.
pub proof fn law_room(state: SessionState, sequence: u16)
    ensures
        state.counts.received < usize::MAX && state.counts.decoded + 0x7fff <= usize::MAX
            && state.counts.decoded * 20 <= u64::MAX ==> state.has_room(sequence),
        state.counts.received < usize::MAX && state.counts.last is None ==> state.has_room(
            sequence,
        ),
        state.counts.received < usize::MAX && state.counts.last is Some && (sequence
            - state.counts.last->0.sequence) % 0x1_0000 >= 0x8000 ==> state.has_room(sequence),
        state.counts.received < usize::MAX && state.counts.last is Some
            && state.counts.last->0.sequence == sequence ==> state.has_room(sequence),
        state.has_room(sequence) ==> state.counts.received + 1 <= usize::MAX,
        state.has_room(sequence) && state.counts.last is Some && 0 < (sequence
            - state.counts.last->0.sequence) % 0x1_0000 < 0x8000 ==> state.counts.decoded + (
        sequence - state.counts.last->0.sequence) % 0x1_0000 <= usize::MAX,
{
}

/// A loss is concealed with one frame at most, a packet decodes to three at most, in each channel.
pub proof fn law_decode_limits(payload: Seq<u8>, channels: u8)
    ensures
        payload.len() == 0 ==> decode_limit(payload, channels) == 960 * channels,
        payload.len() > 0 ==> decode_limit(payload, channels) == 3 * decode_limit(
            Seq::empty(),
            channels,
        ),
{
}

/// Missing packets are counted gap by gap.
pub proof fn law_total_missing_adds_up(gaps: Seq<Gap>, gap: Gap)
    ensures
        total_missing(Seq::empty()) == 0,
        total_missing(gaps.push(gap)) == total_missing(gaps) + gap.missing,
{
    assert(gaps.push(gap).drop_last() =~= gaps);
}

/// Every listed gap is a real one that starts at a frame behind the first, its figures agree, and
/// the gaps follow one another within `played` frames of audio.
pub open spec fn gaps_in_order(gaps: Seq<Gap>, longest: nat, played: nat) -> bool {
    &&& forall|i: int|
        0 <= i < gaps.len() ==> {
            let gap = #[trigger] gaps[i];
            &&& 1 <= gap.missing <= longest
            &&& gap.missing + 1 < LATE_DELTA
            &&& gap.offset_ms >= FRAME_MS
            &&& gap.offset_ms % FRAME_MS as nat == 0
            &&& gap.duration_ms == gap.missing * FRAME_MS
            &&& sequence_delta(gap.sequence, gap.previous) == gap.missing + 1
            &&& gap.offset_ms + gap.duration_ms + FRAME_MS <= played * FRAME_MS
        }
    &&& forall|i: int, j: int|
        0 <= i < j < gaps.len() ==> (#[trigger] gaps[i]).offset_ms + gaps[i].duration_ms + FRAME_MS
            <= (#[trigger] gaps[j]).offset_ms
}

/// One of the gaps has the length `longest`.
pub open spec fn longest_is_listed(gaps: Seq<Gap>, longest: nat) -> bool {
    exists|i: int| 0 <= i < gaps.len() && (#[trigger] gaps[i]).missing == longest
}

/// From `first` to `last` there are `frames` sequence numbers, both ends counted, around the
/// circle.
pub open spec fn spans(first: u16, last: u16, frames: nat) -> bool {
    last == (first + frames - 1) % 0x1_0000
}

proof fn lemma_span_grows(first: u16, last: u16, next: u16, frames: nat)
    requires
        spans(first, last, frames),
    ensures
        spans(first, next, frames + sequence_delta(next, last) as nat),
{
}

impl TraceCounts {
    /// The figures agree with one another while `outstanding` decode requests are open, the
    /// last of them for the packet `head`.
    pub open spec fn sound(self, outstanding: nat, head: Option<PacketMark>) -> bool {
        let tail = if head is Some {
            head
        } else {
            self.last
        };
        &&& self.duplicates + self.late <= self.received
        &&& self.decoded + outstanding == self.accepted() + self.concealed
        &&& self.gap_events <= self.accepted()
        &&& self.gap_events <= self.concealed
        &&& self.longest_loss <= self.concealed
        &&& self.longest_loss + 1 < LATE_DELTA
        &&& (self.gap_events == 0 <==> self.concealed == 0)
        &&& (self.gap_events == 0 <==> self.longest_loss == 0)
        &&& self.gaps.len() == if self.gap_events < MAX_REPORTED_TRACE_GAPS {
            self.gap_events
        } else {
            MAX_REPORTED_TRACE_GAPS as nat
        }
        &&& (self.gaps_truncated <==> self.gap_events > MAX_REPORTED_TRACE_GAPS)
        &&& (!self.gaps_truncated ==> total_missing(self.gaps) == self.concealed)
        &&& (!self.gaps_truncated && self.gap_events > 0 ==> longest_is_listed(
            self.gaps,
            self.longest_loss,
        ))
        &&& gaps_in_order(self.gaps, self.longest_loss, self.decoded + outstanding)
        &&& (self.first is Some <==> self.accepted() > 0)
        &&& (tail is Some <==> self.accepted() > 0)
        &&& (self.accepted() > 0 ==> spans(
            self.first->0.sequence,
            tail->0.sequence,
            self.decoded + outstanding,
        ))
    }
}

impl SessionState {
    /// The figures agree with one another and fit their counters.
    pub open spec fn sound(self) -> bool {
        &&& self.counts.sound(
            self.outstanding(),
            match self.queue {
                Some(queue) => Some(queue.mark),
                None => None,
            },
        )
        &&& self.counts.decoded + self.outstanding() <= usize::MAX
    }
}

proof fn lemma_gap_in_order(counts: TraceCounts, missing: nat, sequence: u16)
    requires
        counts.decoded > 0,
        counts.last is Some,
        0 < missing,
        missing + 1 < LATE_DELTA,
        sequence_delta(sequence, counts.last->0.sequence) == missing + 1,
        gaps_in_order(counts.gaps, counts.longest_loss, counts.decoded),
    ensures
        gaps_in_order(
            counts.lose(missing, sequence).gaps,
            counts.lose(missing, sequence).longest_loss,
            counts.decoded + missing + 1,
        ),
{
    let after = counts.lose(missing, sequence);
    if counts.gaps.len() < MAX_REPORTED_TRACE_GAPS {
        let gap = after.gaps.last();
        assert(gap.offset_ms % FRAME_MS as nat == 0) by {
            vstd::arithmetic::div_mod::lemma_mod_multiples_basic(
                counts.decoded as int,
                FRAME_MS as int,
            );
        }
        assert(after.gaps =~= counts.gaps.push(gap));
    }
}

proof fn lemma_lose_keeps_totals(counts: TraceCounts, missing: nat, sequence: u16)
    requires
        counts.sound(0, None),
        missing > 0,
    ensures
        ({
            let after = counts.lose(missing, sequence);
            &&& (!after.gaps_truncated ==> total_missing(after.gaps) == after.concealed)
            &&& (!after.gaps_truncated ==> longest_is_listed(after.gaps, after.longest_loss))
        }),
{
    let after = counts.lose(missing, sequence);
    if counts.gaps.len() < MAX_REPORTED_TRACE_GAPS {
        assert(after.gaps.drop_last() =~= counts.gaps);
        if counts.longest_loss < missing {
            assert(after.gaps[counts.gaps.len() as int].missing == missing);
        } else {
            let i = choose|i: int|
                0 <= i < counts.gaps.len() && (#[trigger] counts.gaps[i]).missing
                    == counts.longest_loss;
            assert(after.gaps[i] == counts.gaps[i]);
        }
    }
}

#[verifier::spinoff_prover]
#[verifier::rlimit(40)]
pub(crate) proof fn lemma_receive_keeps_sound(
    state: SessionState,
    mark: PacketMark,
    payload: Seq<u8>,
)
    requires
        state.counts.sound(0, None),
        state.queue is None,
    ensures
        state.receive(mark, payload).counts.sound(
            state.receive(mark, payload).outstanding(),
            match state.receive(mark, payload).queue {
                Some(queue) => Some(queue.mark),
                None => None,
            },
        ),
{
    let before = state.counts;
    match before.arrival(mark.sequence) {
        Arrival::First => {
            assert(spans(mark.sequence, mark.sequence, 1));
        },
        Arrival::Ahead { missing } => {
            lemma_span_grows(
                before.first->0.sequence,
                before.last->0.sequence,
                mark.sequence,
                before.decoded,
            );
            if missing > 0 {
                let counted = TraceCounts { received: before.received + 1, ..before };
                lemma_lose_keeps_totals(before, missing as nat, mark.sequence);
                lemma_gap_in_order(counted, missing as nat, mark.sequence);
            }
        },
        _ => {},
    }
}

proof fn lemma_complete_keeps_sound(state: SessionState, samples: Seq<i16>)
    requires
        state.sound(),
        state.queue is Some,
    ensures
        state.complete(samples).sound(),
{
}

/// A packet as a trace line holds it, its payload in base64.
#[derive(Debug)]
pub struct PlaybackTraceFrame {
    pub ssrc: u32,
    pub sequence: u16,
    pub timestamp: u32,
    pub payload: String,
}

impl PlaybackTraceFrame {
    /// The packet's sequence number and timestamp.
    pub open spec fn mark(self) -> PacketMark {
        PacketMark { sequence: self.sequence, timestamp: self.timestamp }
    }
}

/// What the decoder is asked to do next.
#[derive(Debug, Clone, Copy)]
pub struct DecodeRequest<'a> {
    /// The packet to decode; empty to conceal a loss.
    pub payload: &'a [u8],
    /// Interleaved samples that the decoder may fill.
    pub max_samples: usize,
    /// A lost packet stands behind the request, not a received one.
    pub concealment: bool,
}

/// The report on a decoded trace.
#[derive(Debug)]
pub struct DecodeTraceStats {
    pub mode: &'static str,
    pub input: String,
    pub output: String,
    pub sample_rate: u32,
    pub channels: u8,
    pub received_packets: usize,
    pub decoded_packets: usize,
    pub concealed_lost_packets: usize,
    pub sequence_gap_events: usize,
    pub max_consecutive_lost_packets: usize,
    pub duplicate_packets: usize,
    pub out_of_order_packets: usize,
    pub first_sequence: Option<u16>,
    pub last_sequence: Option<u16>,
    pub first_timestamp: Option<u32>,
    pub last_timestamp: Option<u32>,
    pub output_duration_ms: u64,
    pub gaps: Vec<DecodeTraceGap>,
    pub gaps_truncated: bool,
}

/// The sequence number of a packet, if there is one.
pub open spec fn sequence_of(mark: Option<PacketMark>) -> Option<u16> {
    match mark {
        Some(mark) => Some(mark.sequence),
        None => None,
    }
}

/// The timestamp of a packet, if there is one.
pub open spec fn timestamp_of(mark: Option<PacketMark>) -> Option<u32> {
    match mark {
        Some(mark) => Some(mark.timestamp),
        None => None,
    }
}

fn mark_sequence(mark: Option<PacketMark>) -> (sequence: Option<u16>)
    ensures
        sequence == sequence_of(mark),
{
    match mark {
        Some(mark) => Some(mark.sequence),
        None => None,
    }
}

fn mark_timestamp(mark: Option<PacketMark>) -> (timestamp: Option<u32>)
    ensures
        timestamp == timestamp_of(mark),
{
    match mark {
        Some(mark) => Some(mark.timestamp),
        None => None,
    }
}

impl DecodeTraceStats {
    /// The report states exactly what `state` holds.
    pub open spec fn reports(
        self,
        state: SessionState,
        input: Seq<char>,
        output: Seq<char>,
    ) -> bool {
        &&& self.mode@ == "decode-trace"@
        &&& self.input@ == input
        &&& self.output@ == output
        &&& self.sample_rate == SAMPLE_RATE
        &&& self.channels == state.channels
        &&& self.received_packets == state.counts.received
        &&& self.decoded_packets == state.counts.decoded
        &&& self.concealed_lost_packets == state.counts.concealed
        &&& self.sequence_gap_events == state.counts.gap_events
        &&& self.max_consecutive_lost_packets == state.counts.longest_loss
        &&& self.duplicate_packets == state.counts.duplicates
        &&& self.out_of_order_packets == state.counts.late
        &&& self.first_sequence == sequence_of(state.counts.first)
        &&& self.last_sequence == sequence_of(state.counts.last)
        &&& self.first_timestamp == timestamp_of(state.counts.first)
        &&& self.last_timestamp == timestamp_of(state.counts.last)
        &&& self.output_duration_ms == duration_ms(state.pcm.len(), state.channels)
        &&& self.gaps@.map_values(|gap: DecodeTraceGap| gap@) =~= state.counts.gaps
        &&& self.gaps_truncated == state.counts.gaps_truncated
    }

    /// The report in one line.
    pub fn summary(&self) -> (line: String)
        ensures
            line@ == "discord-voice-engine decode-trace: decoded "@ + decimal(
                self.received_packets as nat,
            ) + " packet(s), concealed "@ + decimal(self.concealed_lost_packets as nat)
                + " lost packet(s) across "@ + decimal(self.sequence_gap_events as nat)
                + " gap(s)"@,
    {
        let mut line = "discord-voice-engine decode-trace: decoded ".to_owned();
        push_decimal(&mut line, self.received_packets as u64);
        line.append(" packet(s), concealed ");
        push_decimal(&mut line, self.concealed_lost_packets as u64);
        line.append(" lost packet(s) across ");
        push_decimal(&mut line, self.sequence_gap_events as u64);
        line.append(" gap(s)");
        line
    }
}

struct Pending {
    missing: usize,
    mark: PacketMark,
    payload: Vec<u8>,
}

/// The replay of one trace.
pub struct TraceSession {
    channels: u8,
    received_packets: usize,
    decoded_packets: usize,
    concealed_lost_packets: usize,
    sequence_gap_events: usize,
    max_consecutive_lost_packets: usize,
    duplicate_packets: usize,
    out_of_order_packets: usize,
    first: Option<PacketMark>,
    last: Option<PacketMark>,
    gaps: Vec<DecodeTraceGap>,
    gaps_truncated: bool,
    pending: Option<Pending>,
    decoded: Vec<i16>,
}

/// The interleaved samples that decoding `payload` may fill: one frame to conceal a loss,
/// three frames for a packet.
pub open spec fn decode_limit(payload: Seq<u8>, channels: u8) -> nat {
    if payload.len() == 0 {
        FRAME_SAMPLES as nat * channels as nat
    } else {
        MAX_PACKET_SAMPLES as nat * channels as nat
    }
}

impl View for TraceSession {
    type V = SessionState;

    closed spec fn view(&self) -> SessionState {
        SessionState {
            channels: self.channels,
            counts: TraceCounts {
                received: self.received_packets as nat,
                decoded: self.decoded_packets as nat,
                concealed: self.concealed_lost_packets as nat,
                gap_events: self.sequence_gap_events as nat,
                longest_loss: self.max_consecutive_lost_packets as nat,
                duplicates: self.duplicate_packets as nat,
                late: self.out_of_order_packets as nat,
                first: self.first,
                last: self.last,
                gaps: self.gaps@.map_values(|gap: DecodeTraceGap| gap@),
                gaps_truncated: self.gaps_truncated,
            },
            queue: match self.pending {
                Some(pending) => Some(
                    Queue {
                        missing: pending.missing as nat,
                        mark: pending.mark,
                        payload: pending.payload@,
                    },
                ),
                None => None,
            },
            pcm: self.decoded@,
        }
    }
}

impl TraceSession {
    /// Starts the replay of a trace with `channels` interleaved channels.
    pub fn new(channels: u8) -> (session: TraceSession)
        ensures
            session@ == SessionState::empty(channels),
            session@.sound(),
            session@.channels == channels,
            session@.queue is None,
            session@.pcm.len() == 0,
            session@.counts.received == 0,
            session@.counts.decoded == 0,
            session@.counts.concealed == 0,
            session@.counts.gap_events == 0,
            session@.counts.longest_loss == 0,
            session@.counts.duplicates == 0,
            session@.counts.late == 0,
            session@.counts.first is None,
            session@.counts.last is None,
            session@.counts.gaps.len() == 0,
            !session@.counts.gaps_truncated,
    {
        let session = TraceSession {
            channels,
            received_packets: 0,
            decoded_packets: 0,
            concealed_lost_packets: 0,
            sequence_gap_events: 0,
            max_consecutive_lost_packets: 0,
            duplicate_packets: 0,
            out_of_order_packets: 0,
            first: None,
            last: None,
            gaps: Vec::new(),
            gaps_truncated: false,
            pending: None,
            decoded: Vec::new(),
        };
        proof {
            assert(session@.counts =~= TraceCounts::empty());
        }
        session
    }

    /// Accounts for a packet and queues the decode requests it leads to: none for a duplicate
    /// or a late one.
    pub fn receive_packet(&mut self, mark: PacketMark, payload: Vec<u8>)
        requires
            old(self)@.sound(),
            old(self)@.queue is None,
            old(self)@.has_room(mark.sequence),
        ensures
            final(self)@ == old(self)@.receive(mark, payload@),
            final(self)@.sound(),
            final(self)@.channels == old(self)@.channels,
            final(self)@.pcm == old(self)@.pcm,
            final(self)@.counts.received == old(self)@.counts.received + 1,
            final(self)@.counts.decoded == old(self)@.counts.decoded,
            final(self)@.counts.last == old(self)@.counts.last,
            ({
                let before = old(self)@.counts;
                let after = final(self)@.counts;
                let queue = final(self)@.queue;
                match before.last {
                    None => {
                        &&& after == (TraceCounts {
                            received: before.received + 1,
                            first: Some(mark),
                            ..before
                        })
                        &&& queue == Some(Queue { missing: 0, mark, payload: payload@ })
                    },
                    Some(last) => {
                        let delta = (mark.sequence - last.sequence) % 0x1_0000;
                        &&& delta == 0 ==> queue is None && after == (TraceCounts {
                            received: before.received + 1,
                            duplicates: before.duplicates + 1,
                            ..before
                        })
                        &&& delta >= 0x8000 ==> queue is None && after == (TraceCounts {
                            received: before.received + 1,
                            late: before.late + 1,
                            ..before
                        })
                        &&& 0 < delta < 0x8000 ==> {
                            &&& queue == Some(
                                Queue { missing: (delta - 1) as nat, mark, payload: payload@ },
                            )
                            &&& after.concealed == before.concealed + delta - 1
                            &&& after.duplicates == before.duplicates
                            &&& after.late == before.late
                            &&& after.first == before.first
                            &&& delta == 1 ==> {
                                &&& after.gap_events == before.gap_events
                                &&& after.longest_loss == before.longest_loss
                                &&& after.gaps == before.gaps
                                &&& after.gaps_truncated == before.gaps_truncated
                            }
                            &&& delta > 1 ==> {
                                &&& after.gap_events == before.gap_events + 1
                                &&& after.longest_loss == if before.longest_loss < delta - 1 {
                                    delta - 1
                                } else {
                                    before.longest_loss as int
                                }
                            }
                            &&& delta > 1 && before.gaps.len() < 100 ==> {
                                &&& after.gaps_truncated == before.gaps_truncated
                                &&& after.gaps == before.gaps.push(
                                    Gap {
                                        previous: last.sequence,
                                        sequence: mark.sequence,
                                        missing: (delta - 1) as nat,
                                        offset_ms: before.decoded * 20,
                                        duration_ms: ((delta - 1) * 20) as nat,
                                    },
                                )
                            }
                            &&& delta > 1 && before.gaps.len() >= 100 ==> after.gaps_truncated
                                && after.gaps == before.gaps
                        }
                    },
                }
            }),
    {
        proof {
            lemma_receive_keeps_sound(self@, mark, payload@);
            law_received_packet(self@, mark, payload@);
        }
        self.received_packets = self.received_packets + 1;
        match classify_arrival(mark_sequence(self.last), mark.sequence) {
            Arrival::First => {
                self.first = Some(mark);
                self.pending = Some(Pending { missing: 0, mark, payload });
            },
            Arrival::Duplicate => {
                self.duplicate_packets = self.duplicate_packets + 1;
            },
            Arrival::Late => {
                self.out_of_order_packets = self.out_of_order_packets + 1;
            },
            Arrival::Ahead { missing } => {
                if missing > 0 {
                    self.record_gap(missing, mark.sequence);
                }
                self.pending = Some(Pending { missing: missing as usize, mark, payload });
            },
        }
    }

    /// Whether the counters can take a packet numbered `sequence`.
    pub fn has_room(&self, sequence: u16) -> (room: bool)
        ensures
            room == self@.has_room(sequence),
            room == (self@.counts.received < usize::MAX && match self@.counts.last {
                None => true,
                Some(last) => {
                    let delta = (sequence - last.sequence) % 0x1_0000;
                    0 < delta < 0x8000 ==> self@.counts.decoded + delta <= usize::MAX && (delta > 1
                        && self@.counts.gaps.len() < 100 ==> self@.counts.decoded * 20 <= u64::MAX)
                },
            }),
    {
        if self.received_packets == usize::MAX {
            return false;
        }
        match classify_arrival(mark_sequence(self.last), sequence) {
            Arrival::Ahead { missing } => {
                let needed = missing as usize + 1;
                self.decoded_packets <= usize::MAX - needed && (missing == 0 || self.gaps.len()
                    >= MAX_REPORTED_TRACE_GAPS || self.decoded_packets as u64 <= u64::MAX
                    / FRAME_MS)
            },
            _ => true,
        }
    }

    /// Takes a frame as a trace line holds it. A payload that is not base64 is refused before
    /// anything is counted.
    pub fn receive(&mut self, frame: &PlaybackTraceFrame) -> (outcome: Result<(), PayloadError>)
        requires
            old(self)@.sound(),
            old(self)@.queue is None,
            old(self)@.has_room(frame.sequence),
        ensures
            match payload_of(frame.payload@) {
                Ok(payload) => outcome is Ok && final(self)@ == old(self)@.receive(
                    frame.mark(),
                    payload,
                ),
                Err(error) => outcome == Err::<(), PayloadError>(error) && final(self)@ == old(
                    self,
                )@,
            },
            match base64_standard(vstd::utf8::encode_utf8(frame.payload@)) {
                Ok(payload) => outcome is Ok && final(self)@ == old(self)@.receive(
                    (PacketMark { sequence: frame.sequence, timestamp: frame.timestamp }),
                    payload,
                ),
                Err(_) => outcome is Err && final(self)@ == old(self)@,
            },
            final(self)@.sound(),
    {
        match decode_payload(frame.payload.as_str()) {
            Ok(payload) => {
                let mark = PacketMark { sequence: frame.sequence, timestamp: frame.timestamp };
                self.receive_packet(mark, payload);
                Ok(())
            },
            Err(error) => Err(error),
        }
    }

    /// The decode request at the head of the queue.
    pub fn request(&self) -> (request: Option<DecodeRequest<'_>>)
        ensures
            request is Some ==> request->0.payload@ == self@.requests()[0],
            match self@.queue {
                None => request is None,
                Some(queue) => {
                    &&& request is Some
                    &&& request->0.concealment == (queue.missing > 0)
                    &&& request->0.payload@ == if queue.missing > 0 {
                        Seq::<u8>::empty()
                    } else {
                        queue.payload
                    }
                    &&& request->0.max_samples == decode_limit(
                        request->0.payload@,
                        self@.channels,
                    )
                    &&& request->0.payload@.len() == 0 ==> request->0.max_samples == 960
                        * self@.channels
                    &&& request->0.payload@.len() > 0 ==> request->0.max_samples == 2880
                        * self@.channels
                },
            },
    {
        match &self.pending {
            None => None,
            Some(pending) => {
                let concealment = pending.missing > 0;
                let payload: &[u8] = if concealment {
                    &[]
                } else {
                    pending.payload.as_slice()
                };
                let max_samples = if payload.len() == 0 {
                    interleaved_len(FRAME_SAMPLES, self.channels)
                } else {
                    interleaved_len(MAX_PACKET_SAMPLES, self.channels)
                };
                Some(DecodeRequest { payload, max_samples, concealment })
            },
        }
    }

    /// Answers the request at the head of the queue with the samples the decoder produced.
    pub fn complete(&mut self, samples: &[i16])
        requires
            old(self)@.sound(),
            old(self)@.queue is Some,
        ensures
            final(self)@ == old(self)@.complete(samples@),
            final(self)@.sound(),
            final(self)@.channels == old(self)@.channels,
            final(self)@.pcm == old(self)@.pcm + samples@,
            old(self)@.queue->0.missing > 0 ==> {
                &&& final(self)@.queue == Some(
                    Queue {
                        missing: (old(self)@.queue->0.missing - 1) as nat,
                        ..old(self)@.queue->0
                    },
                )
                &&& final(self)@.counts == (TraceCounts {
                    decoded: old(self)@.counts.decoded + 1,
                    ..old(self)@.counts
                })
            },
            old(self)@.queue->0.missing == 0 ==> {
                &&& final(self)@.queue is None
                &&& final(self)@.counts == (TraceCounts {
                    decoded: old(self)@.counts.decoded + 1,
                    last: Some(old(self)@.queue->0.mark),
                    ..old(self)@.counts
                })
            },
    {
        proof {
            lemma_complete_keeps_sound(self@, samples@);
        }
        self.decoded.extend_from_slice(samples);
        self.decoded_packets = self.decoded_packets + 1;
        if let Some(pending) = self.pending.take() {
            if pending.missing > 0 {
                self.pending = Some(
                    Pending {
                        missing: pending.missing - 1,
                        mark: pending.mark,
                        payload: pending.payload,
                    },
                );
            } else {
                self.last = Some(pending.mark);
            }
        }
        proof {
            assert(self@.pcm =~= old(self)@.pcm + samples@);
        }
    }

    /// All samples decoded so far, interleaved.
    pub fn pcm(&self) -> (pcm: &[i16])
        ensures
            pcm@ == self@.pcm,
    {
        self.decoded.as_slice()
    }

    /// The report on the trace that was read from `input` and decoded to `output`.
    pub fn stats(&self, input: &str, output: &str) -> (stats: DecodeTraceStats)
        ensures
            stats.reports(self@, input@, output@),
            stats.mode@ == "decode-trace"@,
            stats.input@ == input@,
            stats.output@ == output@,
            stats.sample_rate == 48_000,
            stats.channels == self@.channels,
            stats.received_packets == self@.counts.received,
            stats.decoded_packets == self@.counts.decoded,
            stats.concealed_lost_packets == self@.counts.concealed,
            stats.sequence_gap_events == self@.counts.gap_events,
            stats.max_consecutive_lost_packets == self@.counts.longest_loss,
            stats.duplicate_packets == self@.counts.duplicates,
            stats.out_of_order_packets == self@.counts.late,
            stats.first_sequence is Some <==> self@.counts.first is Some,
            stats.first_timestamp is Some <==> self@.counts.first is Some,
            stats.last_sequence is Some <==> self@.counts.last is Some,
            stats.last_timestamp is Some <==> self@.counts.last is Some,
            self@.counts.first is Some ==> stats.first_sequence->0 == self@.counts.first->0.sequence
                && stats.first_timestamp->0 == self@.counts.first->0.timestamp,
            self@.counts.last is Some ==> stats.last_sequence->0 == self@.counts.last->0.sequence
                && stats.last_timestamp->0 == self@.counts.last->0.timestamp,
            self@.channels == 0 ==> stats.output_duration_ms == 0,
            self@.channels > 0 ==> 48 * self@.channels * stats.output_duration_ms
                <= self@.pcm.len() < 48 * self@.channels * (stats.output_duration_ms + 1),
            stats.gaps@.len() == self@.counts.gaps.len(),
            forall|i: int|
                0 <= i < stats.gaps@.len() ==> {
                    let gap = self@.counts.gaps[i];
                    &&& (#[trigger] stats.gaps@[i]).previous_sequence == gap.previous
                    &&& stats.gaps@[i].sequence == gap.sequence
                    &&& stats.gaps@[i].missing_packets == gap.missing
                    &&& stats.gaps@[i].offset_ms == gap.offset_ms
                    &&& stats.gaps@[i].missing_duration_ms == gap.duration_ms
                },
            stats.gaps_truncated == self@.counts.gaps_truncated,
    {
        let mut gaps: Vec<DecodeTraceGap> = Vec::new();
        gaps.extend_from_slice(self.gaps.as_slice());
        DecodeTraceStats {
            mode: "decode-trace",
            input: input.to_owned(),
            output: output.to_owned(),
            sample_rate: SAMPLE_RATE,
            channels: self.channels,
            received_packets: self.received_packets,
            decoded_packets: self.decoded_packets,
            concealed_lost_packets: self.concealed_lost_packets,
            sequence_gap_events: self.sequence_gap_events,
            max_consecutive_lost_packets: self.max_consecutive_lost_packets,
            duplicate_packets: self.duplicate_packets,
            out_of_order_packets: self.out_of_order_packets,
            first_sequence: mark_sequence(self.first),
            last_sequence: mark_sequence(self.last),
            first_timestamp: mark_timestamp(self.first),
            last_timestamp: mark_timestamp(self.last),
            output_duration_ms: pcm_duration_ms(self.decoded.len(), self.channels),
            gaps,
            gaps_truncated: self.gaps_truncated,
        }
    }

    fn record_gap(&mut self, missing: u16, sequence: u16)
        requires
            missing > 0,
            old(self).last is Some,
            old(self)@.counts.concealed + missing <= usize::MAX,
            old(self)@.counts.gap_events < usize::MAX,
            old(self)@.counts.gaps.len() < MAX_REPORTED_TRACE_GAPS ==> old(self)@.counts.decoded
                * FRAME_MS <= u64::MAX,
        ensures
            final(self)@.counts == old(self)@.counts.lose(missing as nat, sequence),
            final(self)@.queue == old(self)@.queue,
            final(self)@.pcm == old(self)@.pcm,
            final(self)@.channels == old(self)@.channels,
    {
        let lost = missing as usize;
        self.sequence_gap_events = self.sequence_gap_events + 1;
        self.concealed_lost_packets = self.concealed_lost_packets + lost;
        if self.max_consecutive_lost_packets < lost {
            self.max_consecutive_lost_packets = lost;
        }
        if self.gaps.len() < MAX_REPORTED_TRACE_GAPS {
            if let Some(last) = self.last {
                self.gaps.push(
                    DecodeTraceGap {
                        previous_sequence: last.sequence,
                        sequence,
                        missing_packets: lost,
                        offset_ms: self.decoded_packets as u64 * FRAME_MS,
                        missing_duration_ms: missing as u64 * FRAME_MS,
                    },
                );
            }
        } else {
            self.gaps_truncated = true;
        }
        proof {
            assert(self@.counts.gaps =~= old(self)@.counts.lose(missing as nat, sequence).gaps);
            assert(self@.counts =~= old(self)@.counts.lose(missing as nat, sequence));
        }
    }
}

} // verus!
