//! What holds of every replayed trace.
use vstd::prelude::*;

use crate::audio::law_duration_does_not_depend_on_channels;
use crate::payload::payload_of;
use crate::rtp::sequence_delta;
use crate::text::{entry_texts, lines};
use crate::trace::{
    gaps_in_order, lemma_receive_keeps_sound, longest_is_listed, total_missing, trace_counts,
    Arrival, DecodeTraceStats, Gap, PacketMark, PlaybackTraceFrame, Queue, SessionState,
    TraceCounts, LATE_DELTA, MAX_REPORTED_TRACE_GAPS,
};
use crate::{FRAME_MS, FRAME_SAMPLES};

verus! {

/// A session's state after the requests at the head of its queue were answered with `outputs`,
/// in order.
pub open spec fn complete_all(state: SessionState, outputs: Seq<Seq<i16>>) -> SessionState
    decreases outputs.len(),
{
    if outputs.len() == 0 {
        state
    } else {
        complete_all(state, outputs.drop_last()).complete(outputs.last())
    }
}

proof fn lemma_hear_keeps_sound(counts: TraceCounts, mark: PacketMark)
    requires
        counts.sound(0, None),
    ensures
        counts.hear(mark).sound(0, None),
{
    let state = SessionState { channels: 0, counts, queue: None, pcm: Seq::empty() };
    lemma_receive_keeps_sound(state, mark, Seq::empty());
}

proof fn lemma_trace_counts_sound(marks: Seq<PacketMark>)
    ensures
        trace_counts(marks).sound(0, None),
        trace_counts(marks).received == marks.len(),
    decreases marks.len(),
{
    if marks.len() > 0 {
        lemma_trace_counts_sound(marks.drop_last());
        lemma_hear_keeps_sound(trace_counts(marks.drop_last()), marks.last());
    }
}

/// Every packet of a trace is accounted for once: it is a duplicate, or late, or decoded; and
/// what is decoded beyond that conceals a loss.
pub proof fn law_every_packet_is_accounted_for(marks: Seq<PacketMark>)
    ensures
        trace_counts(marks).received == marks.len(),
        trace_counts(marks).duplicates + trace_counts(marks).late <= marks.len(),
        trace_counts(marks).decoded == marks.len() - trace_counts(marks).duplicates - trace_counts(
            marks,
        ).late + trace_counts(marks).concealed,
{
    lemma_trace_counts_sound(marks);
}

/// The report lists every gap while there are at most as many as it may list, and says so when
/// there are more. The gaps it lists are real ones, in order and apart from one another; each
/// starts a whole number of frames into the replay, at least one, and none is longer than the
/// longest loss, which is shorter than half the circle of sequence numbers. As long as all are
/// listed, the longest loss is among them and they add up to what was concealed.
pub proof fn law_gap_report(marks: Seq<PacketMark>)
    ensures
        trace_counts(marks).gaps.len() == if trace_counts(marks).gap_events
            <= MAX_REPORTED_TRACE_GAPS {
            trace_counts(marks).gap_events
        } else {
            MAX_REPORTED_TRACE_GAPS as nat
        },
        trace_counts(marks).gaps_truncated <==> trace_counts(marks).gap_events
            > MAX_REPORTED_TRACE_GAPS,
        !trace_counts(marks).gaps_truncated ==> total_missing(trace_counts(marks).gaps)
            == trace_counts(marks).concealed,
        !trace_counts(marks).gaps_truncated && trace_counts(marks).gap_events > 0
            ==> longest_is_listed(trace_counts(marks).gaps, trace_counts(marks).longest_loss),
        gaps_in_order(
            trace_counts(marks).gaps,
            trace_counts(marks).longest_loss,
            trace_counts(marks).decoded,
        ),
        trace_counts(marks).longest_loss <= trace_counts(marks).concealed,
        trace_counts(marks).longest_loss + 1 < LATE_DELTA,
        trace_counts(marks).gap_events == 0 <==> trace_counts(marks).concealed == 0,
{
    lemma_trace_counts_sound(marks);
}

/// The frames decoded are as many as the sequence numbers from the first packet to the last one
/// played, counted around the circle.
pub proof fn law_decoded_frames_span_the_trace(marks: Seq<PacketMark>)
    ensures
        trace_counts(marks).first is Some <==> marks.len() > 0,
        trace_counts(marks).last is Some <==> marks.len() > 0,
        marks.len() > 0 ==> trace_counts(marks).first == Some(marks[0]),
        marks.len() > 0 ==> trace_counts(marks).last->0.sequence == (
        trace_counts(marks).first->0.sequence + trace_counts(marks).decoded - 1) % 0x1_0000,
    decreases marks.len(),
{
    lemma_trace_counts_sound(marks);
    if marks.len() > 0 {
        law_decoded_frames_span_the_trace(marks.drop_last());
        lemma_trace_counts_sound(marks.drop_last());
    }
}

/// A trace whose sequence numbers count up by one, around the circle, is decoded packet by
/// packet: nothing is lost, repeated or late.
pub proof fn law_unbroken_trace(marks: Seq<PacketMark>)
    requires
        forall|i: int|
            0 < i < marks.len() ==> sequence_delta(
                (#[trigger] marks[i]).sequence,
                marks[i - 1].sequence,
            ) == 1,
    ensures
        trace_counts(marks) == (TraceCounts {
            received: marks.len(),
            decoded: marks.len(),
            first: if marks.len() == 0 {
                None
            } else {
                Some(marks[0])
            },
            last: if marks.len() == 0 {
                None
            } else {
                Some(marks.last())
            },
            ..TraceCounts::empty()
        }),
    decreases marks.len(),
{
    if marks.len() > 0 {
        let before = marks.drop_last();
        assert forall|i: int| 0 < i < before.len() implies sequence_delta(
            (#[trigger] before[i]).sequence,
            before[i - 1].sequence,
        ) == 1 by {
            assert(before[i] == marks[i]);
        }
        law_unbroken_trace(before);
        if before.len() > 0 {
            assert(marks[marks.len() - 1] == marks.last());
        }
    }
}

/// The last packet once more changes nothing but the counts of packets and of duplicates,
/// whatever its timestamp.
pub proof fn law_duplicate_is_only_counted(counts: TraceCounts, mark: PacketMark)
    requires
        counts.last is Some,
        mark.sequence == counts.last->0.sequence,
    ensures
        counts.hear(mark) == (TraceCounts {
            received: counts.received + 1,
            duplicates: counts.duplicates + 1,
            ..counts
        }),
{
}

/// A packet from behind the last one changes nothing but the counts of packets and of late ones.
pub proof fn law_late_packet_is_only_counted(counts: TraceCounts, mark: PacketMark)
    requires
        counts.last is Some,
        sequence_delta(mark.sequence, counts.last->0.sequence) >= LATE_DELTA,
    ensures
        counts.hear(mark) == (TraceCounts {
            received: counts.received + 1,
            late: counts.late + 1,
            ..counts
        }),
{
}

/// A packet from ahead moves the replay on by its distance from the last one, one frame for each
/// sequence number passed; all but one of these frames conceal a loss, and no earlier gap is
/// touched.
pub proof fn law_packet_from_ahead_fills_the_distance(counts: TraceCounts, mark: PacketMark)
    requires
        counts.last is Some,
        0 < sequence_delta(mark.sequence, counts.last->0.sequence) < LATE_DELTA,
    ensures
        counts.hear(mark).decoded == counts.decoded + sequence_delta(
            mark.sequence,
            counts.last->0.sequence,
        ),
        counts.hear(mark).concealed == counts.concealed + sequence_delta(
            mark.sequence,
            counts.last->0.sequence,
        ) - 1,
        counts.hear(mark).last == Some(mark),
        counts.hear(mark).duplicates == counts.duplicates,
        counts.hear(mark).late == counts.late,
        counts.gaps.is_prefix_of(counts.hear(mark).gaps),
        counts.hear(mark).received == counts.received + 1,
        counts.hear(mark).first == counts.first,
{
}

/// A packet from just ahead of the last one leaves the gaps as they are. One from further ahead
/// makes one more: it is reported, while fewer than a hundred are, between the two packets, from
/// where the replay stands on, and for as long as what is missing lasts; the longest loss is that
/// one or an earlier one.
pub proof fn law_packet_from_ahead_leaves_its_gap(counts: TraceCounts, mark: PacketMark)
    requires
        counts.last is Some,
        0 < (mark.sequence - counts.last->0.sequence) % 0x1_0000 < 0x8000,
    ensures
        ({
            let missing = ((mark.sequence - counts.last->0.sequence) % 0x1_0000 - 1) as nat;
            let after = counts.hear(mark);
            &&& missing == 0 ==> {
                &&& after.gap_events == counts.gap_events
                &&& after.longest_loss == counts.longest_loss
                &&& after.gaps == counts.gaps
                &&& after.gaps_truncated == counts.gaps_truncated
            }
            &&& missing > 0 ==> {
                &&& after.gap_events == counts.gap_events + 1
                &&& after.longest_loss >= counts.longest_loss && after.longest_loss >= missing
                &&& after.longest_loss == counts.longest_loss || after.longest_loss == missing
            }
            &&& missing > 0 && counts.gaps.len() < 100 ==> {
                &&& after.gaps_truncated == counts.gaps_truncated
                &&& after.gaps == counts.gaps.push(
                    Gap {
                        previous: counts.last->0.sequence,
                        sequence: mark.sequence,
                        missing,
                        offset_ms: counts.decoded * 20,
                        duration_ms: missing * 20,
                    },
                )
            }
            &&& missing > 0 && counts.gaps.len() >= 100 ==> {
                &&& after.gaps_truncated
                &&& after.gaps == counts.gaps
            }
        }),
{
}

/// The first packet is decoded, with nothing lost before it.
pub proof fn law_first_packet_is_played(counts: TraceCounts, mark: PacketMark)
    requires
        counts.last is None,
    ensures
        counts.hear(mark) == (TraceCounts {
            received: counts.received + 1,
            decoded: counts.decoded + 1,
            first: Some(mark),
            last: Some(mark),
            ..counts
        }),
{
}

/// A trace is accounted for packet by packet: before the first nothing is counted, and a packet
/// behind others is heard after them.
pub proof fn law_trace_is_heard_packet_by_packet(marks: Seq<PacketMark>, mark: PacketMark)
    ensures
        ({
            let none = trace_counts(Seq::empty());
            &&& none.received == 0 && none.decoded == 0 && none.concealed == 0
            &&& none.gap_events == 0 && none.longest_loss == 0
            &&& none.duplicates == 0 && none.late == 0
            &&& none.first is None && none.last is None
            &&& none.gaps.len() == 0 && !none.gaps_truncated
        }),
        trace_counts(marks.push(mark)) == trace_counts(marks).hear(mark),
{
    assert(marks.push(mark).drop_last() =~= marks);
}

proof fn lemma_complete_all(state: SessionState, outputs: Seq<Seq<i16>>)
    requires
        state.queue is Some,
        outputs.len() <= state.queue->0.missing + 1,
    ensures
        complete_all(state, outputs) == (SessionState {
            channels: state.channels,
            counts: if outputs.len() <= state.queue->0.missing {
                TraceCounts { decoded: state.counts.decoded + outputs.len(), ..state.counts }
            } else {
                state.counts.play(state.queue->0.missing, state.queue->0.mark)
            },
            queue: if outputs.len() <= state.queue->0.missing {
                Some(
                    Queue {
                        missing: (state.queue->0.missing - outputs.len()) as nat,
                        ..state.queue->0
                    },
                )
            } else {
                None
            },
            pcm: state.pcm + outputs.flatten(),
        }),
    decreases outputs.len(),
{
    if outputs.len() == 0 {
        assert(state.pcm + outputs.flatten() =~= state.pcm);
    } else {
        let before = outputs.drop_last();
        lemma_complete_all(state, before);
        assert(outputs =~= before.push(outputs.last()));
        before.lemma_flatten_push(outputs.last());
        assert(state.pcm + outputs.flatten() =~= (state.pcm + before.flatten()) + outputs.last());
    }
}

/// A session that received a packet and had every request answered is idle again, has counted
/// the packet as the trace up to it demands, and has the answers appended to its samples in
/// order.
pub proof fn law_session_follows_the_trace(
    state: SessionState,
    marks: Seq<PacketMark>,
    mark: PacketMark,
    payload: Seq<u8>,
    outputs: Seq<Seq<i16>>,
)
    requires
        state.queue is None,
        state.counts == trace_counts(marks),
        outputs.len() == state.receive(mark, payload).outstanding(),
    ensures
        complete_all(state.receive(mark, payload), outputs) == (SessionState {
            counts: trace_counts(marks.push(mark)),
            pcm: state.pcm + outputs.flatten(),
            ..state
        }),
{
    assert(marks.push(mark).drop_last() =~= marks);
    let received = state.receive(mark, payload);
    if received.queue is Some {
        lemma_complete_all(received, outputs);
    } else {
        assert(outputs.len() == 0);
        assert(state.pcm + outputs.flatten() =~= state.pcm);
    }
}

/// The decoder is asked in the order of the queue: an answer takes away the request at its head
/// and leaves the others.
pub proof fn law_requests_are_answered_in_order(state: SessionState, samples: Seq<i16>)
    requires
        state.queue is Some,
    ensures
        state.requests().len() == state.outstanding(),
        state.complete(samples).requests() == state.requests().drop_first(),
{
    assert(state.complete(samples).requests() =~= state.requests().drop_first());
}

/// A packet of a trace.
pub struct Packet {
    pub mark: PacketMark,
    pub payload: Seq<u8>,
}

/// The sequence numbers and timestamps of some packets.
pub open spec fn marks_of(packets: Seq<Packet>) -> Seq<PacketMark> {
    packets.map_values(|packet: Packet| packet.mark)
}

/// A packet that arrives like this is decoded.
pub open spec fn is_played(arrival: Arrival) -> bool {
    arrival is First || arrival is Ahead
}

/// What the decoder is asked for a packet that arrives like this.
pub open spec fn packet_requests(arrival: Arrival, payload: Seq<u8>) -> Seq<Seq<u8>> {
    match arrival {
        Arrival::First => seq![payload],
        Arrival::Ahead { missing } => Seq::new(
            missing as nat,
            |i: int| Seq::<u8>::empty(),
        ).push(payload),
        _ => Seq::empty(),
    }
}

/// How the last of some packets arrives.
pub open spec fn last_arrival(packets: Seq<Packet>) -> Arrival {
    trace_counts(marks_of(packets.drop_last())).arrival(packets.last().mark.sequence)
}

/// What the decoder is asked for a whole trace, in order; an empty payload for each loss.
pub open spec fn trace_requests(packets: Seq<Packet>) -> Seq<Seq<u8>>
    decreases packets.len(),
{
    if packets.len() == 0 {
        Seq::empty()
    } else {
        trace_requests(packets.drop_last()) + packet_requests(
            last_arrival(packets),
            packets.last().payload,
        )
    }
}

/// A session's state after every packet of a trace was received and every request it led to was
/// answered, before the next packet, with the next of `answers`.
pub open spec fn replay(channels: u8, packets: Seq<Packet>, answers: Seq<Seq<i16>>) -> SessionState
    decreases packets.len(),
{
    if packets.len() == 0 {
        SessionState::empty(channels)
    } else {
        let before = packets.drop_last();
        let packet = packets.last();
        complete_all(
            replay(channels, before, answers).receive(packet.mark, packet.payload),
            answers.subrange(
                trace_requests(before).len() as int,
                trace_requests(packets).len() as int,
            ),
        )
    }
}

proof fn lemma_replay(channels: u8, packets: Seq<Packet>, answers: Seq<Seq<i16>>)
    requires
        trace_requests(packets).len() <= answers.len(),
    ensures
        replay(channels, packets, answers) == (SessionState {
            channels,
            counts: trace_counts(marks_of(packets)),
            queue: None,
            pcm: answers.take(trace_requests(packets).len() as int).flatten(),
        }),
    decreases packets.len(),
{
    let total = trace_requests(packets).len() as int;
    if packets.len() == 0 {
        assert(answers.take(total) =~= Seq::<Seq<i16>>::empty());
        assert(answers.take(total).flatten() =~= Seq::<i16>::empty());
        assert(marks_of(packets) =~= Seq::<PacketMark>::empty());
    } else {
        let before = packets.drop_last();
        let packet = packets.last();
        let asked = trace_requests(before).len() as int;
        let new = answers.subrange(asked, total);
        lemma_replay(channels, before, answers);
        let state = replay(channels, before, answers);
        law_session_follows_the_trace(state, marks_of(before), packet.mark, packet.payload, new);
        assert(marks_of(packets) =~= marks_of(before).push(packet.mark));
        assert(answers.take(total) =~= answers.take(asked) + new);
        vstd::seq_lib::lemma_flatten_concat(answers.take(asked), new);
    }
}

/// A trace that was replayed to its end, every request answered, leaves the session idle: its
/// counts are those of all the packets, and its samples are all the answers in order.
pub proof fn law_replay_of_a_whole_trace(
    channels: u8,
    packets: Seq<Packet>,
    answers: Seq<Seq<i16>>,
)
    requires
        answers.len() == trace_requests(packets).len(),
    ensures
        replay(channels, packets, answers) == (SessionState {
            channels,
            counts: trace_counts(marks_of(packets)),
            queue: None,
            pcm: answers.flatten(),
        }),
{
    lemma_replay(channels, packets, answers);
    assert(answers.take(answers.len() as int) =~= answers);
}

proof fn lemma_frames_flatten(answers: Seq<Seq<i16>>, samples: nat)
    requires
        forall|i: int| 0 <= i < answers.len() ==> (#[trigger] answers[i]).len() == samples,
    ensures
        answers.flatten().len() == answers.len() * samples,
    decreases answers.len(),
{
    if answers.len() == 0 {
        assert(answers.flatten() =~= Seq::<i16>::empty());
        assert(answers.len() * samples == 0) by (nonlinear_arith)
            requires
                answers.len() == 0,
        ;
    } else {
        let before = answers.drop_last();
        assert forall|i: int| 0 <= i < before.len() implies (#[trigger] before[i]).len()
            == samples by {
            assert(before[i] == answers[i]);
        }
        lemma_frames_flatten(before, samples);
        assert(answers =~= before.push(answers.last()));
        before.lemma_flatten_push(answers.last());
        assert((before.len() + 1) * samples == before.len() * samples + samples)
            by (nonlinear_arith);
    }
}

/// The report's length is that of the frames it counts: where the decoder gives one frame for each
/// request, in whatever number of channels, the sound lasts one frame for each frame decoded.
pub proof fn law_reported_length_is_that_of_the_frames(
    channels: u8,
    packets: Seq<Packet>,
    answers: Seq<Seq<i16>>,
    stats: DecodeTraceStats,
    input: Seq<char>,
    output: Seq<char>,
)
    requires
        channels > 0,
        answers.len() == trace_requests(packets).len(),
        forall|i: int|
            0 <= i < answers.len() ==> (#[trigger] answers[i]).len() == FRAME_SAMPLES * channels,
        stats.reports(replay(channels, packets, answers), input, output),
    ensures
        stats.output_duration_ms == stats.decoded_packets * FRAME_MS,
        stats.decoded_packets == answers.len(),
{
    law_replay_of_a_whole_trace(channels, packets, answers);
    lemma_one_request_per_frame(packets);
    let frames = answers.len();
    lemma_frames_flatten(answers, (FRAME_SAMPLES * channels) as nat);
    law_duration_does_not_depend_on_channels(0, frames, channels);
    assert(frames * (960 * channels as nat) == frames * 960 * channels as nat) by (nonlinear_arith);
}

/// While a trace is replayed, a packet leads to exactly the requests that the trace demands.
pub proof fn law_replay_asks_what_the_trace_demands(
    channels: u8,
    packets: Seq<Packet>,
    answers: Seq<Seq<i16>>,
    packet: Packet,
)
    requires
        answers.len() == trace_requests(packets).len(),
    ensures
        trace_requests(packets.push(packet)) == trace_requests(packets) + replay(
            channels,
            packets,
            answers,
        ).receive(packet.mark, packet.payload).requests(),
        trace_requests(packets).len() == trace_counts(marks_of(packets)).decoded,
{
    law_replay_of_a_whole_trace(channels, packets, answers);
    assert(packets.push(packet).drop_last() =~= packets);
    let received = replay(channels, packets, answers).receive(packet.mark, packet.payload);
    assert(received.requests() =~= packet_requests(
        last_arrival(packets.push(packet)),
        packet.payload,
    ));
    lemma_one_request_per_frame(packets);
}

proof fn lemma_one_request_per_frame(packets: Seq<Packet>)
    ensures
        trace_requests(packets).len() == trace_counts(marks_of(packets)).decoded,
    decreases packets.len(),
{
    if packets.len() > 0 {
        lemma_one_request_per_frame(packets.drop_last());
        assert(marks_of(packets).drop_last() =~= marks_of(packets.drop_last()));
    }
}

/// The two traces have the same packets, but for the payloads of those that are not decoded.
pub open spec fn same_where_played(packets: Seq<Packet>, others: Seq<Packet>) -> bool {
    &&& packets.len() == others.len()
    &&& marks_of(packets) == marks_of(others)
    &&& forall|i: int|
        0 <= i < packets.len() && is_played(last_arrival(#[trigger] packets.take(i + 1)))
            ==> packets[i].payload == others[i].payload
}

proof fn lemma_same_requests(packets: Seq<Packet>, others: Seq<Packet>)
    requires
        same_where_played(packets, others),
    ensures
        trace_requests(packets) == trace_requests(others),
    decreases packets.len(),
{
    if packets.len() > 0 {
        let count = packets.len() - 1;
        let before = packets.drop_last();
        let others_before = others.drop_last();
        assert(marks_of(before) =~= marks_of(packets).drop_last());
        assert(marks_of(others_before) =~= marks_of(others).drop_last());
        assert forall|i: int|
            0 <= i < before.len() && is_played(
                last_arrival(#[trigger] before.take(i + 1)),
            ) implies before[i].payload == others_before[i].payload by {
            assert(before.take(i + 1) =~= packets.take(i + 1));
        }
        lemma_same_requests(before, others_before);
        assert(packets.take(count + 1) =~= packets);
        assert(marks_of(packets)[count] == packets[count].mark);
        assert(marks_of(others)[count] == others[count].mark);
    }
}

/// The payloads of duplicates and late packets do not matter: the decoder is asked the same, and
/// a decoder that answers the same requests alike leaves the same counts and samples.
pub proof fn law_payloads_not_played_do_not_matter(
    channels: u8,
    packets: Seq<Packet>,
    others: Seq<Packet>,
    decoder: spec_fn(Seq<Seq<u8>>) -> Seq<Seq<i16>>,
)
    requires
        same_where_played(packets, others),
        decoder(trace_requests(packets)).len() == trace_requests(packets).len(),
    ensures
        trace_requests(others) == trace_requests(packets),
        replay(channels, others, decoder(trace_requests(others))) == replay(
            channels,
            packets,
            decoder(trace_requests(packets)),
        ),
{
    lemma_same_requests(packets, others);
    law_replay_of_a_whole_trace(channels, packets, decoder(trace_requests(packets)));
    law_replay_of_a_whole_trace(channels, others, decoder(trace_requests(others)));
}

/// The packet that a frame stands for, where its payload is base64.
pub open spec fn packet_of(frame: PlaybackTraceFrame) -> Packet {
    Packet { mark: frame.mark(), payload: payload_of(frame.payload@)->Ok_0 }
}

/// The packets that a text holds, one on each line that is not blank, where `parse` reads the
/// frame on a line.
pub open spec fn packets_in(
    text: Seq<char>,
    parse: spec_fn(Seq<char>) -> PlaybackTraceFrame,
) -> Seq<Packet> {
    entry_texts(lines(text)).map_values(|line: Seq<char>| packet_of(parse(line)))
}

/// Two texts give the same replay and the same report where their lines, the blank ones left out,
/// hold the same sequence numbers and timestamps, and the same payloads but for duplicates and
/// late packets. So blank lines, sources and the payloads of packets that are not decoded do not
/// matter.
pub proof fn law_report_rests_on_what_is_played(
    channels: u8,
    text: Seq<char>,
    other: Seq<char>,
    parse: spec_fn(Seq<char>) -> PlaybackTraceFrame,
    decoder: spec_fn(Seq<Seq<u8>>) -> Seq<Seq<i16>>,
    stats: DecodeTraceStats,
    input: Seq<char>,
    output: Seq<char>,
)
    requires
        entry_texts(lines(text)).len() == entry_texts(lines(other)).len(),
        forall|i: int|
            0 <= i < entry_texts(lines(text)).len() ==> {
                let frame = parse(#[trigger] entry_texts(lines(text))[i]);
                let another = parse(entry_texts(lines(other))[i]);
                &&& payload_of(frame.payload@) is Ok
                &&& payload_of(another.payload@) is Ok
                &&& frame.sequence == another.sequence
                &&& frame.timestamp == another.timestamp
                &&& is_played(last_arrival(packets_in(text, parse).take(i + 1)))
                    ==> payload_of(frame.payload@) == payload_of(another.payload@)
            },
        decoder(trace_requests(packets_in(text, parse))).len() == trace_requests(
            packets_in(text, parse),
        ).len(),
    ensures
        ({
            let packets = packets_in(text, parse);
            let others = packets_in(other, parse);
            let state = replay(channels, packets, decoder(trace_requests(packets)));
            let another = replay(channels, others, decoder(trace_requests(others)));
            &&& trace_requests(others) == trace_requests(packets)
            &&& another == state
            &&& another.pcm == state.pcm
            &&& stats.reports(another, input, output) == stats.reports(state, input, output)
        }),
{
    let packets = packets_in(text, parse);
    let others = packets_in(other, parse);
    let texts = entry_texts(lines(text));
    assert forall|i: int| 0 <= i < packets.len() implies packets[i].mark == others[i].mark && (
    is_played(last_arrival(#[trigger] packets.take(i + 1))) ==> packets[i].payload
        == others[i].payload) by {
        assert(packets[i] == packet_of(parse(texts[i])));
        assert(others[i] == packet_of(parse(entry_texts(lines(other))[i])));
    }
    assert forall|i: int| 0 <= i < packets.len() implies #[trigger] marks_of(packets)[i]
        == marks_of(others)[i] by {
        let up_to = packets.take(i + 1);
        assert(packets[i].mark == others[i].mark);
    }
    assert(marks_of(packets) =~= marks_of(others));
    law_payloads_not_played_do_not_matter(channels, packets, others, decoder);
}

} // verus!
