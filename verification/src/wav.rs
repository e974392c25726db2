//! The header of a WAV file.
use vstd::prelude::*;

use crate::SAMPLE_RATE;

verus! {

/// How the samples of a WAV file are written.
#[derive(Debug, Clone, Copy, PartialEq, Eq, Structural)]
pub enum WavEncoding {
    /// Signed 16-bit integers.
    Pcm16,
    /// 32-bit floating-point numbers.
    Float32,
}

impl WavEncoding {
    /// Bytes per sample.
    pub open spec fn sample_bytes(self) -> nat {
        match self {
            WavEncoding::Pcm16 => 2,
            WavEncoding::Float32 => 4,
        }
    }

    /// The number that stands for the encoding.
    pub open spec fn tag(self) -> nat {
        match self {
            WavEncoding::Pcm16 => 1,
            WavEncoding::Float32 => 3,
        }
    }
}

/// A number in little-endian order, in `width` bytes.
pub open spec fn le_bytes(value: nat, width: nat) -> Seq<u8>
    decreases width,
{
    if width == 0 {
        seq![]
    } else {
        seq![(value % 0x100) as u8] + le_bytes(value / 0x100, (width - 1) as nat)
    }
}

/// The most bytes of samples that a WAV file can hold: its sizes are 32-bit numbers, and one of
/// them counts the rest of the header too.
pub const MAX_WAV_DATA: u32 = 0xffff_ffff - 36;

/// The 44 bytes before the samples: the RIFF, format and data chunk headers.
pub open spec fn wav_header_bytes(encoding: WavEncoding, channels: u8, data_bytes: nat) -> Seq<u8> {
    let riff = seq![0x52u8, 0x49u8, 0x46u8, 0x46u8];
    let wave = seq![0x57u8, 0x41u8, 0x56u8, 0x45u8];
    let fmt = seq![0x66u8, 0x6du8, 0x74u8, 0x20u8];
    let data = seq![0x64u8, 0x61u8, 0x74u8, 0x61u8];
    let frame_bytes = channels as nat * encoding.sample_bytes();
    let format = le_bytes(encoding.tag(), 2) + le_bytes(channels as nat, 2) + le_bytes(
        SAMPLE_RATE as nat,
        4,
    ) + le_bytes(SAMPLE_RATE as nat * frame_bytes, 4) + le_bytes(frame_bytes, 2) + le_bytes(
        8 * encoding.sample_bytes(),
        2,
    );
    riff + le_bytes(36 + data_bytes, 4) + wave + fmt + le_bytes(16, 4) + format + data + le_bytes(
        data_bytes,
        4,
    )
}

fn push_le(out: &mut Vec<u8>, value: u32, width: u8)
    ensures
        final(out)@ == old(out)@ + le_bytes(value as nat, width as nat),
    decreases width,
{
    if width > 0 {
        out.push((value % 0x100) as u8);
        push_le(out, value / 0x100, width - 1);
    }
    assert(out@ =~= old(out)@ + le_bytes(value as nat, width as nat));
}

fn push_name(out: &mut Vec<u8>, a: u8, b: u8, c: u8, d: u8)
    ensures
        final(out)@ == old(out)@ + seq![a, b, c, d],
{
    out.push(a);
    out.push(b);
    out.push(c);
    out.push(d);
}

/// The header of a WAV file with `data_bytes` bytes of samples at the engine's sample rate;
/// nothing if that is more than a WAV file can hold.
pub fn wav_header(
    encoding: WavEncoding,
    channels: u8,
    data_bytes: usize,
) -> (header: Option<Vec<u8>>)
    ensures
        header is Some <==> data_bytes <= MAX_WAV_DATA,
        header is Some ==> header->0@ == wav_header_bytes(encoding, channels, data_bytes as nat),
        header is Some <==> data_bytes <= 0xffff_ffdb,
        header is Some ==> {
            let bytes = header->0@;
            &&& bytes.len() == 44
            &&& bytes[4] + 0x100 * bytes[5] + 0x1_0000 * bytes[6] + 0x100_0000 * bytes[7] == 36
                + data_bytes
            &&& bytes[20] + 0x100 * bytes[21] == if encoding == WavEncoding::Pcm16 {
                1int
            } else {
                3
            }
            &&& bytes[22] + 0x100 * bytes[23] == channels
            &&& bytes[24] + 0x100 * bytes[25] + 0x1_0000 * bytes[26] + 0x100_0000 * bytes[27]
                == 48_000
            &&& bytes[34] + 0x100 * bytes[35] == if encoding == WavEncoding::Pcm16 {
                16int
            } else {
                32
            }
            &&& bytes[40] + 0x100 * bytes[41] + 0x1_0000 * bytes[42] + 0x100_0000 * bytes[43]
                == data_bytes
        },
{
    if data_bytes as u64 > MAX_WAV_DATA as u64 {
        return None;
    }
    let data = data_bytes as u32;
    let (tag, sample_bytes): (u32, u32) = match encoding {
        WavEncoding::Pcm16 => (1, 2),
        WavEncoding::Float32 => (3, 4),
    };
    let frame_bytes: u32 = channels as u32 * sample_bytes;
    assert(frame_bytes <= 1020) by (nonlinear_arith)
        requires
            frame_bytes == channels * sample_bytes,
            channels <= 255,
            sample_bytes <= 4,
    ;
    let mut out: Vec<u8> = Vec::new();
    push_name(&mut out, 0x52, 0x49, 0x46, 0x46);
    push_le(&mut out, 36 + data, 4);
    push_name(&mut out, 0x57, 0x41, 0x56, 0x45);
    push_name(&mut out, 0x66, 0x6d, 0x74, 0x20);
    push_le(&mut out, 16, 4);
    push_le(&mut out, tag, 2);
    push_le(&mut out, channels as u32, 2);
    push_le(&mut out, SAMPLE_RATE, 4);
    push_le(&mut out, SAMPLE_RATE * frame_bytes, 4);
    push_le(&mut out, frame_bytes, 2);
    push_le(&mut out, 8 * sample_bytes, 2);
    push_name(&mut out, 0x64, 0x61, 0x74, 0x61);
    push_le(&mut out, data, 4);
    assert(out@ =~= wav_header_bytes(encoding, channels, data_bytes as nat));
    proof {
        law_wav_header_reads_back(encoding, channels, data_bytes as nat);
    }
    Some(out)
}

proof fn lemma_le_pair(value: nat)
    requires
        value < 0x1_0000,
    ensures
        le_bytes(value, 2).len() == 2,
        le_bytes(value, 2)[0] + 0x100 * le_bytes(value, 2)[1] == value,
{
    reveal_with_fuel(le_bytes, 3);
}

proof fn lemma_le_quad(value: nat)
    requires
        value < 0x1_0000_0000,
    ensures
        le_bytes(value, 4).len() == 4,
        le_bytes(value, 4)[0] + 0x100 * le_bytes(value, 4)[1] + 0x1_0000 * le_bytes(value, 4)[2]
            + 0x100_0000 * le_bytes(value, 4)[3] == value,
{
    reveal_with_fuel(le_bytes, 5);
    let second = value / 0x100;
    let third = second / 0x100;
    let fourth = third / 0x100;
    assert(le_bytes(value, 4) =~= seq![
        (value % 0x100) as u8,
        (second % 0x100) as u8,
        (third % 0x100) as u8,
        (fourth % 0x100) as u8,
    ]);
}

/// Every part of a header can be read back from it, each number with its low byte first: the names
/// and sizes of the chunks, the encoding, the channels, the sample rate, the bytes of a second and
/// of a frame, the bits of a sample, and the bytes of samples.
pub proof fn law_wav_header_reads_back(encoding: WavEncoding, channels: u8, data_bytes: nat)
    requires
        data_bytes <= 0xffff_ffff - 36,
    ensures
        ({
            let bytes = wav_header_bytes(encoding, channels, data_bytes);
            let width: int = if encoding == WavEncoding::Pcm16 {
                2
            } else {
                4
            };
            &&& bytes.len() == 44
            &&& bytes[0] == 0x52 && bytes[1] == 0x49 && bytes[2] == 0x46 && bytes[3] == 0x46
            &&& bytes[4] + 0x100 * bytes[5] + 0x1_0000 * bytes[6] + 0x100_0000 * bytes[7] == 36
                + data_bytes
            &&& bytes[8] == 0x57 && bytes[9] == 0x41 && bytes[10] == 0x56 && bytes[11] == 0x45
            &&& bytes[12] == 0x66 && bytes[13] == 0x6d && bytes[14] == 0x74 && bytes[15] == 0x20
            &&& bytes[16] + 0x100 * bytes[17] + 0x1_0000 * bytes[18] + 0x100_0000 * bytes[19] == 16
            &&& bytes[20] + 0x100 * bytes[21] == if encoding == WavEncoding::Pcm16 {
                1int
            } else {
                3
            }
            &&& bytes[22] + 0x100 * bytes[23] == channels
            &&& bytes[24] + 0x100 * bytes[25] + 0x1_0000 * bytes[26] + 0x100_0000 * bytes[27]
                == 48_000
            &&& bytes[28] + 0x100 * bytes[29] + 0x1_0000 * bytes[30] + 0x100_0000 * bytes[31]
                == 48_000 * (channels * width)
            &&& bytes[32] + 0x100 * bytes[33] == channels * width
            &&& bytes[34] + 0x100 * bytes[35] == 8 * width
            &&& bytes[36] == 0x64 && bytes[37] == 0x61 && bytes[38] == 0x74 && bytes[39] == 0x61
            &&& bytes[40] + 0x100 * bytes[41] + 0x1_0000 * bytes[42] + 0x100_0000 * bytes[43]
                == data_bytes
        }),
{
    let frame_bytes = channels as nat * encoding.sample_bytes();
    assert(frame_bytes <= 1020) by (nonlinear_arith)
        requires
            frame_bytes == channels as nat * encoding.sample_bytes(),
            channels <= 255,
            encoding.sample_bytes() <= 4,
    ;
    lemma_le_quad(36 + data_bytes);
    lemma_le_quad(16);
    lemma_le_pair(encoding.tag());
    lemma_le_pair(channels as nat);
    lemma_le_quad(SAMPLE_RATE as nat);
    lemma_le_quad(SAMPLE_RATE as nat * frame_bytes);
    lemma_le_pair(frame_bytes);
    lemma_le_pair(8 * encoding.sample_bytes());
    lemma_le_quad(data_bytes);
}

} // verus!
