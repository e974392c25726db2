//! RTP packets: sequence arithmetic, framing and packet assembly.
use vstd::prelude::*;

use crate::{DEFAULT_PAYLOAD_TYPE, FRAME_MS, FRAME_SAMPLES, RTP_CLOCK_INCREMENT, SAMPLE_RATE};

verus! {

/// How far `sequence` lies ahead of `previous` on the circle of 16-bit sequence numbers.
pub open spec fn sequence_delta(sequence: u16, previous: u16) -> u16 {
    ((sequence - previous) % 0x1_0000) as u16
}

/// Distance from `previous` forward to `sequence`, wrapping at the end of the 16-bit range.
pub fn rtp_sequence_delta(sequence: u16, previous: u16) -> (delta: u16)
    ensures
        delta == sequence_delta(sequence, previous),
        delta as int == (sequence - previous) % 0x1_0000,
{
    sequence.wrapping_sub(previous)
}

/// The sequence number of packet `index` of a stream that starts at zero.
pub open spec fn stream_sequence(index: nat) -> u16 {
    (index % 0x1_0000) as u16
}

/// The RTP timestamp of packet `index` of a stream that starts at zero.
pub open spec fn stream_timestamp(index: nat) -> u32 {
    (index * RTP_CLOCK_INCREMENT as nat % 0x1_0000_0000) as u32
}

/// Byte `index` of `value` in network order, counting from the most significant one of
/// four.
pub open spec fn be_byte(value: u32, index: int) -> u8 {
    (if index == 0 {
        value as int / 0x100_0000
    } else if index == 1 {
        value as int / 0x1_0000 % 0x100
    } else if index == 2 {
        value as int / 0x100 % 0x100
    } else {
        value as int % 0x100
    }) as u8
}

/// The fixed RTP header: version 2, no padding, no extension, no contributing sources, no
/// marker, a seven-bit payload type, then sequence number, timestamp and source in network
/// order.
pub open spec fn rtp_header(payload_type: u8, sequence: u16, timestamp: u32, ssrc: u32) -> Seq<u8> {
    seq![
        0x80u8,
        payload_type % 0x80,
        (sequence / 0x100) as u8,
        (sequence % 0x100) as u8,
        be_byte(timestamp, 0),
        be_byte(timestamp, 1),
        be_byte(timestamp, 2),
        be_byte(timestamp, 3),
        be_byte(ssrc, 0),
        be_byte(ssrc, 1),
        be_byte(ssrc, 2),
        be_byte(ssrc, 3),
    ]
}

/// A whole RTP packet: the fixed header followed by the payload.
pub open spec fn rtp_packet(
    payload_type: u8,
    sequence: u16,
    timestamp: u32,
    ssrc: u32,
    payload: Seq<u8>,
) -> Seq<u8> {
    rtp_header(payload_type, sequence, timestamp, ssrc) + payload
}

fn push_be_u32(out: &mut Vec<u8>, value: u32)
    ensures
        final(out)@ == old(out)@ + seq![
            be_byte(value, 0),
            be_byte(value, 1),
            be_byte(value, 2),
            be_byte(value, 3),
        ],
{
    out.push((value / 0x100_0000) as u8);
    out.push((value / 0x1_0000 % 0x100) as u8);
    out.push((value / 0x100 % 0x100) as u8);
    out.push((value % 0x100) as u8);
}

/// Assembles an RTP packet around an encoded payload.
pub fn build_rtp_packet(
    payload_type: u8,
    sequence: u16,
    timestamp: u32,
    ssrc: u32,
    payload: &[u8],
) -> (packet: Vec<u8>)
    ensures
        packet@ == rtp_packet(payload_type, sequence, timestamp, ssrc, payload@),
        packet@.len() == 12 + payload@.len(),
        packet@[0] == 0x80,
        packet@[1] == payload_type % 0x80,
        packet@[2] * 0x100 + packet@[3] == sequence,
        packet@[4] * 0x100_0000 + packet@[5] * 0x1_0000 + packet@[6] * 0x100 + packet@[7]
            == timestamp,
        packet@[8] * 0x100_0000 + packet@[9] * 0x1_0000 + packet@[10] * 0x100 + packet@[11] == ssrc,
        packet@.skip(12) == payload@,
{
    let mut packet: Vec<u8> = Vec::new();
    packet.push(0x80);
    packet.push(payload_type % 0x80);
    packet.push((sequence / 0x100) as u8);
    packet.push((sequence % 0x100) as u8);
    push_be_u32(&mut packet, timestamp);
    push_be_u32(&mut packet, ssrc);
    proof {
        assert(packet@ =~= rtp_header(payload_type, sequence, timestamp, ssrc));
    }
    packet.extend_from_slice(payload);
    proof {
        lemma_be_bytes_read_back(timestamp);
        lemma_be_bytes_read_back(ssrc);
        assert(packet@.skip(12) =~= payload@);
    }
    packet
}

/// A payload with its place in the stream.
#[derive(Debug)]
pub struct RtpFrame {
    pub sequence: u16,
    pub timestamp: u32,
    pub payload: Vec<u8>,
}

/// Numbers encoded frames as one stream, from zero on.
pub fn frame_payloads_to_rtp(payloads: Vec<Vec<u8>>) -> (frames: Vec<RtpFrame>)
    ensures
        frames@.len() == payloads@.len(),
        forall|i: int|
            0 <= i < frames@.len() ==> {
                &&& (#[trigger] frames@[i]).sequence == stream_sequence(i as nat)
                &&& frames@[i].timestamp == stream_timestamp(i as nat)
                &&& frames@[i].payload@ == payloads@[i]@
                &&& frames@[i].sequence as int == i % 0x1_0000
                &&& frames@[i].timestamp as int == 960 * i % 0x1_0000_0000
            },
{
    let mut frames: Vec<RtpFrame> = Vec::new();
    let mut sequence: u16 = 0;
    let mut timestamp: u32 = 0;
    for payload in it: payloads
        invariant
            it.seq() == payloads@,
            frames@.len() == it.index(),
            sequence == stream_sequence(frames@.len()),
            timestamp == stream_timestamp(frames@.len()),
            forall|i: int|
                0 <= i < frames@.len() ==> {
                    &&& (#[trigger] frames@[i]).sequence == stream_sequence(i as nat)
                    &&& frames@[i].timestamp == stream_timestamp(i as nat)
                    &&& frames@[i].payload@ == payloads@[i]@
                },
    {
        frames.push(RtpFrame { sequence, timestamp, payload });
        sequence = sequence.wrapping_add(1);
        timestamp = timestamp.wrapping_add(RTP_CLOCK_INCREMENT);
    }
    frames
}

/// When frame `index` of a stream is due, in milliseconds after the first one, if the stream is
/// sent at the pace it is heard at.
pub fn frame_due_ms(index: u64) -> (due: u64)
    requires
        index * FRAME_MS <= u64::MAX,
    ensures
        due == index * FRAME_MS,
{
    index * FRAME_MS
}

/// The bytes of all payloads together.
pub open spec fn payload_total(frames: Seq<RtpFrame>) -> nat
    decreases frames.len(),
{
    if frames.len() == 0 {
        0
    } else {
        payload_total(frames.drop_last()) + frames.last().payload@.len()
    }
}

proof fn lemma_payload_total_grows(frames: Seq<RtpFrame>, count: int)
    requires
        0 <= count <= frames.len(),
    ensures
        payload_total(frames.take(count)) <= payload_total(frames),
    decreases frames.len(),
{
    if count < frames.len() {
        lemma_payload_total_grows(frames.drop_last(), count);
        assert(frames.drop_last().take(count) =~= frames.take(count));
    } else {
        assert(frames.take(count) =~= frames);
    }
}

/// The bytes of all payloads together, if they can be counted.
pub fn total_payload_bytes(frames: &[RtpFrame]) -> (total: Option<usize>)
    ensures
        match total {
            Some(total) => total == payload_total(frames@),
            None => payload_total(frames@) > usize::MAX,
        },
{
    let mut total: usize = 0;
    for i in 0..frames.len()
        invariant
            total == payload_total(frames@.take(i as int)),
    {
        let bytes = frames[i].payload.len();
        proof {
            assert(frames@.take(i + 1).drop_last() =~= frames@.take(i as int));
            lemma_payload_total_grows(frames@, i + 1);
        }
        match total.checked_add(bytes) {
            Some(sum) => {
                total = sum;
            },
            None => {
                return None;
            },
        }
    }
    assert(frames@.take(frames@.len() as int) =~= frames@);
    Some(total)
}

/// A distance leads from where it was measured to where it was measured to, and no shorter way
/// does.
pub proof fn law_delta_is_the_way_forward(sequence: u16, previous: u16, steps: nat)
    ensures
        (previous + sequence_delta(sequence, previous)) % 0x1_0000 == sequence,
        (previous + steps) % 0x1_0000 == sequence ==> sequence_delta(sequence, previous) <= steps,
{
}

/// Distances there and back add up to a whole turn, unless there is no distance at all.
pub proof fn law_delta_there_and_back(sequence: u16, previous: u16)
    ensures
        sequence_delta(sequence, previous) == 0 <==> sequence == previous,
        sequence != previous ==> sequence_delta(sequence, previous) + sequence_delta(
            previous,
            sequence,
        ) == 0x1_0000,
{
}

/// The number that two bytes hold in network order.
pub open spec fn be_u16(bytes: Seq<u8>) -> int {
    bytes[0] * 0x100 + bytes[1]
}

/// The number that four bytes hold in network order.
pub open spec fn be_u32(bytes: Seq<u8>) -> int {
    bytes[0] * 0x100_0000 + bytes[1] * 0x1_0000 + bytes[2] * 0x100 + bytes[3]
}

proof fn lemma_be_bytes_read_back(value: u32)
    ensures
        be_byte(value, 0) * 0x100_0000 + be_byte(value, 1) * 0x1_0000 + be_byte(value, 2) * 0x100
            + be_byte(value, 3) == value,
{
    let high = value as int / 0x1_0000;
    let low = value as int % 0x1_0000;
    assert(value as int / 0x100_0000 == high / 0x100);
    assert(value as int / 0x1_0000 % 0x100 == high % 0x100);
    assert(value as int / 0x100 % 0x100 == low / 0x100);
    assert(value as int % 0x100 == low % 0x100);
}

/// Every part of a packet can be read back from it: the version, the payload type's seven bits,
/// the sequence number, the timestamp, the source and the payload.
pub proof fn law_rtp_packet_reads_back(
    payload_type: u8,
    sequence: u16,
    timestamp: u32,
    ssrc: u32,
    payload: Seq<u8>,
)
    ensures
        ({
            let packet = rtp_packet(payload_type, sequence, timestamp, ssrc, payload);
            &&& packet.len() == 12 + payload.len()
            &&& packet[0] == 0x80
            &&& packet[1] == payload_type % 0x80
            &&& be_u16(packet.subrange(2, 4)) == sequence
            &&& be_u32(packet.subrange(4, 8)) == timestamp
            &&& be_u32(packet.subrange(8, 12)) == ssrc
            &&& packet.skip(12) == payload
        }),
{
    let packet = rtp_packet(payload_type, sequence, timestamp, ssrc, payload);
    lemma_be_bytes_read_back(timestamp);
    lemma_be_bytes_read_back(ssrc);
    assert(packet.subrange(2, 4) =~= seq![(sequence / 0x100) as u8, (sequence % 0x100) as u8]);
    assert(packet.subrange(4, 8) =~= seq![
        be_byte(timestamp, 0),
        be_byte(timestamp, 1),
        be_byte(timestamp, 2),
        be_byte(timestamp, 3),
    ]);
    assert(packet.subrange(8, 12) =~= seq![
        be_byte(ssrc, 0),
        be_byte(ssrc, 1),
        be_byte(ssrc, 2),
        be_byte(ssrc, 3),
    ]);
    assert(packet.skip(12) =~= payload);
}

/// From one packet of a stream to the next, the sequence number moves on by one and the timestamp
/// by one frame, both around their circles.
pub proof fn law_stream_numbering_advances(index: nat)
    ensures
        stream_sequence(0) == 0,
        stream_timestamp(0) == 0,
        stream_sequence(index + 1) == (stream_sequence(index) + 1) % 0x1_0000,
        sequence_delta(stream_sequence(index + 1), stream_sequence(index)) == 1,
        stream_timestamp(index + 1) == (stream_timestamp(index) + RTP_CLOCK_INCREMENT)
            % 0x1_0000_0000,
{
}

/// A frame is due when its timestamp says: the clock ticks at the sample rate, around its circle,
/// and one frame lasts from its own due time to the next one's.
pub proof fn law_frames_are_due_at_their_timestamps(index: nat)
    ensures
        stream_timestamp(index) == (index * FRAME_MS as nat) * (SAMPLE_RATE as nat / 1000)
            % 0x1_0000_0000,
        (index + 1) * FRAME_MS == index * FRAME_MS + FRAME_MS,
{
    assert((index * 20) * 48 == index * 960);
}

/// Payload bytes are counted frame by frame, whatever the frames are split into: nothing counts
/// nothing, one frame counts its payload, and two runs count what both count.
pub proof fn law_payload_total_adds_up(
    first: Seq<RtpFrame>,
    frame: RtpFrame,
    second: Seq<RtpFrame>,
)
    ensures
        payload_total(Seq::empty()) == 0,
        payload_total(seq![frame]) == frame.payload@.len(),
        payload_total(first + second) == payload_total(first) + payload_total(second),
    decreases second.len(),
{
    assert(seq![frame].drop_last() =~= Seq::<RtpFrame>::empty());
    assert(payload_total(seq![frame].drop_last()) == 0);
    if second.len() == 0 {
        assert(first + second =~= first);
    } else {
        law_payload_total_adds_up(first, frame, second.drop_last());
        assert((first + second).drop_last() =~= first + second.drop_last());
    }
}

/// The default payload type fits the header as it is: a packet carries it unchanged.
pub proof fn law_default_payload_type_is_carried(
    sequence: u16,
    timestamp: u32,
    ssrc: u32,
    payload: Seq<u8>,
)
    ensures
        rtp_packet(DEFAULT_PAYLOAD_TYPE, sequence, timestamp, ssrc, payload)[1] == 120,
        DEFAULT_PAYLOAD_TYPE == 120,
{
}

/// One frame of sound, one packet and one step of the clocks are the same time.
pub proof fn law_one_frame_is_one_tick_of_every_clock()
    ensures
        FRAME_SAMPLES * 1000 == SAMPLE_RATE * FRAME_MS,
        RTP_CLOCK_INCREMENT == FRAME_SAMPLES,
        FRAME_MS == 20,
        SAMPLE_RATE == 48_000,
{
}

} // verus!
