//! PCM samples: their byte form, the mix to mono, and lengths of audio.
use vstd::prelude::*;

use crate::{FRAME_MS, FRAME_SAMPLES, SAMPLE_RATE};

verus! {

/// A sample as an unsigned 16-bit number: two's complement.
pub open spec fn sample_code(sample: i16) -> int {
    if sample < 0 {
        sample + 0x1_0000
    } else {
        sample as int
    }
}

/// The sample that two bytes encode, the low one first.
pub open spec fn sample_of(low: u8, high: u8) -> i16 {
    let code = low + 0x100 * high;
    (if code < 0x8000 {
        code
    } else {
        code - 0x1_0000
    }) as i16
}

/// The samples that a run of bytes encodes; an odd byte at the end is left out.
pub open spec fn pcm_of_bytes(bytes: Seq<u8>) -> Seq<i16> {
    Seq::new(bytes.len() / 2, |i: int| sample_of(bytes[2 * i], bytes[2 * i + 1]))
}

/// The bytes of a run of samples, two per sample, the low one first.
pub open spec fn bytes_of_pcm(pcm: Seq<i16>) -> Seq<u8> {
    Seq::new(
        2 * pcm.len(),
        |i: int|
            (if i % 2 == 0 {
                sample_code(pcm[i / 2]) % 0x100
            } else {
                sample_code(pcm[i / 2]) / 0x100
            }) as u8,
    )
}

/// Reads signed 16-bit little-endian samples.
pub fn pcm_from_le_bytes(bytes: &[u8]) -> (pcm: Vec<i16>)
    ensures
        pcm@ == pcm_of_bytes(bytes@),
        pcm@.len() == bytes@.len() / 2,
        forall|i: int|
            0 <= i < pcm@.len() ==> (#[trigger] pcm@[i] - bytes@[2 * i] - 0x100 * bytes@[2 * i + 1])
                % 0x1_0000 == 0,
{
    let mut pcm: Vec<i16> = Vec::new();
    let length = bytes.len();
    for i in 0..length / 2
        invariant
            length == bytes@.len(),
            pcm@ == pcm_of_bytes(bytes@).take(i as int),
    {
        let low = bytes[2 * i];
        let high = bytes[2 * i + 1];
        let code: i32 = low as i32 + 0x100 * (high as i32);
        let sample: i16 = if code < 0x8000 {
            code as i16
        } else {
            (code - 0x1_0000) as i16
        };
        pcm.push(sample);
        assert(pcm@ =~= pcm_of_bytes(bytes@).take(i + 1));
    }
    pcm
}

/// Appends samples in signed 16-bit little-endian form.
pub fn extend_le_bytes(out: &mut Vec<u8>, pcm: &[i16])
    ensures
        final(out)@ == old(out)@ + bytes_of_pcm(pcm@),
        final(out)@.len() == old(out)@.len() + 2 * pcm@.len(),
{
    for i in 0..pcm.len()
        invariant
            out@ == old(out)@ + bytes_of_pcm(pcm@).take(2 * i),
    {
        let sample = pcm[i];
        let code: u32 = if sample < 0 {
            (sample as i32 + 0x1_0000) as u32
        } else {
            sample as u32
        };
        out.push((code % 0x100) as u8);
        out.push((code / 0x100) as u8);
        assert(out@ =~= old(out)@ + bytes_of_pcm(pcm@).take(2 * (i + 1)));
    }
    assert(bytes_of_pcm(pcm@).take(2 * pcm@.len() as int) =~= bytes_of_pcm(pcm@));
}

/// The sum of some samples.
pub open spec fn sample_sum(samples: Seq<i16>) -> int
    decreases samples.len(),
{
    if samples.len() == 0 {
        0
    } else {
        sample_sum(samples.drop_last()) + samples.last()
    }
}

/// The quotient rounded toward zero.
pub open spec fn quotient(sum: int, count: int) -> int {
    if sum < 0 {
        -((-sum) / count)
    } else {
        sum / count
    }
}

/// One sample per frame of interleaved channels: their mean, rounded toward zero. Samples
/// behind the last whole frame are left out; a single channel stays as it is.
pub open spec fn mono_mix(samples: Seq<i16>, channels: u8) -> Seq<i16> {
    if channels <= 1 {
        samples
    } else {
        let width = channels as int;
        Seq::new(
            (samples.len() as int / width) as nat,
            |i: int|
                quotient(
                    sample_sum(samples.subrange(i * width, i * width + width)),
                    width,
                ) as i16,
        )
    }
}

/// The mean of the `channels` samples from `start` on, rounded toward zero.
fn frame_mean(samples: &[i16], start: usize, channels: u8) -> (mean: i16)
    requires
        channels > 0,
        start + channels <= samples@.len(),
    ensures
        mean == quotient(
            sample_sum(samples@.subrange(start as int, start + channels)),
            channels as int,
        ),
{
    let length = samples.len();
    let mut sum: i32 = 0;
    for k in 0..channels
        invariant
            length == samples@.len(),
            start + channels <= length,
            sum == sample_sum(samples@.subrange(start as int, start + k)),
            -0x8000 * k <= sum <= 0x7fff * k,
    {
        assert(samples@.subrange(start as int, start + k + 1).drop_last() =~= samples@.subrange(
            start as int,
            start + k,
        ));
        sum = sum + samples[start + k as usize] as i32;
    }
    proof {
        lemma_quotient_within(sum as int, channels as int, i16::MIN as int, i16::MAX as int);
    }
    if sum < 0 {
        let size: u32 = (-sum) as u32 / channels as u32;
        (-(size as i32)) as i16
    } else {
        (sum as u32 / channels as u32) as i16
    }
}

/// Mixes interleaved channels down to one.
pub fn interleaved_i16_to_mono(samples: &[i16], channels: u8) -> (mono: Vec<i16>)
    ensures
        mono@ == mono_mix(samples@, channels),
        channels <= 1 ==> mono@ == samples@,
        channels > 1 ==> mono@.len() == samples@.len() / channels as nat,
        channels == 2 ==> forall|i: int|
            0 <= i < mono@.len() ==> -1 <= 2 * #[trigger] mono@[i] - samples@[2 * i]
                - samples@[2 * i + 1] <= 1,
{
    let mut mono: Vec<i16> = Vec::new();
    if channels <= 1 {
        mono.extend_from_slice(samples);
        return mono;
    }
    let width = channels as usize;
    let length = samples.len();
    let frames = length / width;
    for i in 0..frames
        invariant
            1 < channels,
            width == channels as usize,
            length == samples@.len(),
            frames == length / width,
            mono@ == mono_mix(samples@, channels).take(i as int),
    {
        assert(0 <= i * width && i * width + width <= length) by (nonlinear_arith)
            requires
                0 <= i < frames,
                0 < width,
                frames == length / width,
        ;
        mono.push(frame_mean(samples, i * width, channels));
        assert(mono@ =~= mono_mix(samples@, channels).take(i + 1));
    }
    assert(mono_mix(samples@, channels).take(frames as int) =~= mono_mix(samples@, channels));
    proof {
        if channels == 2 {
            assert forall|i: int| 0 <= i < mono@.len() implies -1 <= 2 * #[trigger] mono@[i]
                - samples@[2 * i] - samples@[2 * i + 1] <= 1 by {
                law_stereo_mix_is_the_mean(samples@, i);
            }
        }
    }
    mono
}

/// Interleaved samples of `per_channel` samples in each of `channels` channels.
pub fn interleaved_len(per_channel: usize, channels: u8) -> (samples: usize)
    requires
        per_channel * channels <= usize::MAX,
    ensures
        samples == per_channel * channels,
{
    per_channel * channels as usize
}

/// The length of a recording in whole milliseconds; nothing without channels.
pub open spec fn duration_ms(samples: nat, channels: u8) -> nat {
    if channels == 0 {
        0
    } else {
        samples / channels as nat * 1000 / SAMPLE_RATE as nat
    }
}

/// How long `samples` interleaved samples last, in whole milliseconds.
pub fn pcm_duration_ms(samples: usize, channels: u8) -> (ms: u64)
    ensures
        ms == duration_ms(samples as nat, channels),
        channels == 0 ==> ms == 0,
        channels > 0 ==> 48 * channels * ms <= samples < 48 * channels * (ms + 1),
{
    proof {
        if channels > 0 {
            law_duration_is_the_time_heard(samples as nat, channels);
        }
    }
    if channels == 0 {
        0
    } else {
        let samples_per_ms: u64 = SAMPLE_RATE as u64 / 1000;
        assert(samples_per_ms == 48);
        (samples / channels as usize) as u64 / samples_per_ms
    }
}

/// The samples, all silent, that bring `samples` interleaved ones to whole Opus frames.
pub fn padding_to_full_opus_frames(samples: usize, channels: u8) -> (padding: usize)
    requires
        channels > 0,
    ensures
        padding == if samples as int % (FRAME_SAMPLES * channels) == 0 {
            0
        } else {
            FRAME_SAMPLES * channels - samples as int % (FRAME_SAMPLES * channels)
        },
        (samples + padding) % (FRAME_SAMPLES * channels) as int == 0,
{
    let width = FRAME_SAMPLES * channels as usize;
    let over = samples % width;
    let padding: usize = if over == 0 {
        0
    } else {
        width - over
    };
    proof {
        vstd::arithmetic::div_mod::lemma_fundamental_div_mod(samples as int, width as int);
        let whole = samples as int / width as int + if over == 0 {
            0int
        } else {
            1int
        };
        assert(samples + padding == width * whole) by (nonlinear_arith)
            requires
                samples == width * (samples as int / width as int) + over,
                over == 0 ==> padding == 0 && whole == samples as int / width as int,
                over != 0 ==> padding == width - over && whole == samples as int / width as int + 1,
        ;
        vstd::arithmetic::div_mod::lemma_mod_multiples_basic(whole, width as int);
        assert(width * whole == whole * width) by (nonlinear_arith);
    }
    padding
}

/// A length is the whole milliseconds that the samples of each channel take, 48 to a millisecond,
/// whatever the number of channels: no more has been heard, and less than one more.
pub proof fn law_duration_is_the_time_heard(samples: nat, channels: u8)
    requires
        channels > 0,
    ensures
        48 * channels * duration_ms(samples, channels) <= samples,
        samples < 48 * channels * (duration_ms(samples, channels) + 1),
{
    let width = channels as int;
    let per_channel = samples as int / width;
    let ms = duration_ms(samples, channels) as int;
    assert(ms == per_channel * 1000 / 48_000);
    assert(48 * ms <= per_channel < 48 * (ms + 1));
    assert(width * per_channel <= samples < width * (per_channel + 1)) by (nonlinear_arith)
        requires
            width > 0,
            per_channel == samples as int / width,
    ;
    assert(48 * width * ms <= samples && samples < 48 * width * (ms + 1)) by (nonlinear_arith)
        requires
            width > 0,
            48 * ms <= per_channel < 48 * (ms + 1),
            width * per_channel <= samples < width * (per_channel + 1),
    ;
}

/// The same sound lasts as long in any number of channels: a second of samples in each lasts a
/// second, and whole frames last their number of frames.
pub proof fn law_duration_does_not_depend_on_channels(per_channel: nat, frames: nat, channels: u8)
    requires
        channels > 0,
    ensures
        duration_ms(per_channel * channels as nat, channels) == duration_ms(per_channel, 1),
        duration_ms(SAMPLE_RATE as nat * channels as nat, channels) == 1000,
        duration_ms(frames * FRAME_SAMPLES as nat * channels as nat, channels) == frames * FRAME_MS,
{
    let width = channels as int;
    vstd::arithmetic::div_mod::lemma_div_multiples_vanish(per_channel as int, width);
    vstd::arithmetic::div_mod::lemma_div_multiples_vanish(SAMPLE_RATE as int, width);
    vstd::arithmetic::div_mod::lemma_div_multiples_vanish(frames * FRAME_SAMPLES, width);
    assert(per_channel as int * width == width * per_channel as int) by (nonlinear_arith);
    assert(SAMPLE_RATE as int * width == width * SAMPLE_RATE as int) by (nonlinear_arith);
    assert((frames * FRAME_SAMPLES) * width == width * (frames * FRAME_SAMPLES))
        by (nonlinear_arith);
}

/// A sample's two bytes, the low one first, are its value in two's complement; and so are the two
/// bytes that a sample is read from.
pub proof fn law_samples_are_little_endian(pcm: Seq<i16>, bytes: Seq<u8>, i: int)
    ensures
        bytes_of_pcm(pcm).len() == 2 * pcm.len(),
        pcm_of_bytes(bytes).len() == bytes.len() / 2,
        0 <= i < pcm.len() ==> bytes_of_pcm(pcm)[2 * i] + 0x100 * bytes_of_pcm(pcm)[2 * i + 1]
            == pcm[i] as int % 0x1_0000,
        0 <= i < bytes.len() / 2 ==> bytes[2 * i] + 0x100 * bytes[2 * i + 1] == pcm_of_bytes(
            bytes,
        )[i] as int % 0x1_0000,
{
}

/// The sum of samples is taken one by one.
pub proof fn law_sample_sum_adds_up(samples: Seq<i16>, sample: i16)
    ensures
        sample_sum(Seq::empty()) == 0,
        sample_sum(samples.push(sample)) == sample_sum(samples) + sample,
{
    assert(samples.push(sample).drop_last() =~= samples);
}

/// Each mixed sample, times the channels, is the sum of its frame but for less than one step for
/// each channel, and never further from silence than the sum.
pub proof fn law_mono_mix_is_the_mean(samples: Seq<i16>, channels: u8, frame: int)
    requires
        channels > 1,
        0 <= frame < samples.len() / channels as nat,
    ensures
        ({
            let sum = sample_sum(
                samples.subrange(frame * channels, frame * channels + channels),
            );
            let mixed = mono_mix(samples, channels)[frame] as int;
            &&& -channels < mixed * channels - sum < channels
            &&& sum >= 0 ==> 0 <= mixed && mixed * channels <= sum
            &&& sum <= 0 ==> mixed <= 0 && sum <= mixed * channels
        }),
{
    let width = channels as int;
    let start = frame * width;
    assert(0 <= start && start + width <= samples.len()) by (nonlinear_arith)
        requires
            0 <= frame < samples.len() as int / width,
            start == frame * width,
            width > 1,
    ;
    let part = samples.subrange(start, start + width);
    let sum = sample_sum(part);
    let mixed = quotient(sum, width);
    lemma_sum_within(part, i16::MIN, i16::MAX);
    lemma_quotient_within(sum, width, i16::MIN as int, i16::MAX as int);
    if sum < 0 {
        let size = (-sum) / width;
        assert(0 <= size && size * width <= -sum < size * width + width) by (nonlinear_arith)
            requires
                width > 1,
                sum < 0,
                size == (-sum) / width,
        ;
        assert((-size) * width == -(size * width)) by (nonlinear_arith);
    } else {
        assert(0 <= mixed && mixed * width <= sum < mixed * width + width) by (nonlinear_arith)
            requires
                width > 1,
                sum >= 0,
                mixed == sum / width,
        ;
    }
}

/// Of two channels, the mix doubled is left plus right, but for one step at most.
pub proof fn law_stereo_mix_is_the_mean(samples: Seq<i16>, frame: int)
    requires
        0 <= frame < samples.len() / 2,
    ensures
        ({
            let both = samples[2 * frame] + samples[2 * frame + 1];
            let mixed = mono_mix(samples, 2)[frame] as int;
            &&& -1 <= 2 * mixed - both <= 1
            &&& both >= 0 ==> 0 <= mixed && 2 * mixed <= both
            &&& both <= 0 ==> mixed <= 0 && both <= 2 * mixed
        }),
{
    law_mono_mix_is_the_mean(samples, 2, frame);
    let part = samples.subrange(2 * frame, 2 * frame + 2);
    assert(samples.subrange(frame * 2, frame * 2 + 2) =~= part);
    assert(part.drop_last().drop_last() =~= Seq::<i16>::empty());
    assert(sample_sum(part.drop_last().drop_last()) == 0);
    assert(sample_sum(part.drop_last()) == part[0]);
    assert(sample_sum(part) == part[0] + part[1]);
}

/// Exchanging left and right in every frame leaves the mix as it is.
pub proof fn law_stereo_mix_is_symmetric(samples: Seq<i16>, exchanged: Seq<i16>)
    requires
        exchanged.len() == samples.len(),
        forall|i: int|
            0 <= i < samples.len() / 2 ==> #[trigger] exchanged[2 * i] == samples[2 * i + 1]
                && exchanged[2 * i + 1] == samples[2 * i],
    ensures
        mono_mix(exchanged, 2) == mono_mix(samples, 2),
{
    assert forall|i: int| 0 <= i < samples.len() / 2 implies #[trigger] mono_mix(exchanged, 2)[i]
        == mono_mix(samples, 2)[i] by {
        assert(exchanged[2 * i] == samples[2 * i + 1]);
        law_stereo_mix_is_the_mean(samples, i);
        law_stereo_mix_is_the_mean(exchanged, i);
    }
    assert(mono_mix(exchanged, 2) =~= mono_mix(samples, 2));
}

/// Negating every sample negates the mix of two channels.
pub proof fn law_stereo_mix_of_the_negative(samples: Seq<i16>, negative: Seq<i16>)
    requires
        negative.len() == samples.len(),
        forall|i: int| 0 <= i < samples.len() ==> #[trigger] negative[i] == -samples[i],
    ensures
        mono_mix(negative, 2).len() == mono_mix(samples, 2).len(),
        forall|i: int|
            0 <= i < mono_mix(samples, 2).len() ==> #[trigger] mono_mix(negative, 2)[i]
                == -mono_mix(samples, 2)[i],
{
    assert forall|i: int| 0 <= i < mono_mix(samples, 2).len() implies #[trigger] mono_mix(
        negative,
        2,
    )[i] == -mono_mix(samples, 2)[i] by {
        assert(negative[2 * i] == -samples[2 * i]);
        assert(negative[2 * i + 1] == -samples[2 * i + 1]);
        law_stereo_mix_is_the_mean(samples, i);
        law_stereo_mix_is_the_mean(negative, i);
    }
}

/// Samples written as bytes read back as they were.
pub proof fn law_pcm_reads_back(pcm: Seq<i16>)
    ensures
        bytes_of_pcm(pcm).len() == 2 * pcm.len(),
        pcm_of_bytes(bytes_of_pcm(pcm)) == pcm,
{
    let bytes = bytes_of_pcm(pcm);
    assert forall|i: int| 0 <= i < pcm.len() implies #[trigger] pcm_of_bytes(bytes)[i]
        == pcm[i] by {
        assert(bytes[2 * i] == sample_code(pcm[i]) % 0x100);
        assert(bytes[2 * i + 1] == sample_code(pcm[i]) / 0x100);
    }
    assert(pcm_of_bytes(bytes) =~= pcm);
}

/// Bytes read as samples write back as they were, but for an odd byte at the end.
pub proof fn law_bytes_write_back(bytes: Seq<u8>)
    ensures
        bytes_of_pcm(pcm_of_bytes(bytes)) == bytes.take((bytes.len() / 2 * 2) as int),
{
    let pcm = pcm_of_bytes(bytes);
    assert forall|i: int| 0 <= i < 2 * pcm.len() implies #[trigger] bytes_of_pcm(pcm)[i]
        == bytes[i] by {
        let half = i / 2;
        assert(pcm[half] == sample_of(bytes[2 * half], bytes[2 * half + 1]));
        assert(sample_code(pcm[half]) == bytes[2 * half] + 0x100 * bytes[2 * half + 1]);
    }
    assert(bytes_of_pcm(pcm) =~= bytes.take((bytes.len() / 2 * 2) as int));
}

/// The mix to mono has one sample per whole frame, and each keeps to the bounds that the samples
/// of its frame keep to.
pub proof fn law_mono_mix_stays_within_its_frame(
    samples: Seq<i16>,
    channels: u8,
    low: i16,
    high: i16,
    frame: int,
)
    requires
        channels > 1,
        0 <= frame < samples.len() / channels as nat,
        forall|i: int|
            frame * channels <= i < frame * channels + channels ==> low <= #[trigger] samples[i]
                <= high,
    ensures
        mono_mix(samples, channels).len() == samples.len() / channels as nat,
        low <= mono_mix(samples, channels)[frame] <= high,
{
    let width = channels as int;
    let start = frame * width;
    assert(0 <= start && start + width <= samples.len()) by (nonlinear_arith)
        requires
            0 <= frame < samples.len() as int / width,
            start == frame * width,
            width > 1,
    ;
    let part = samples.subrange(start, start + width);
    assert forall|i: int| 0 <= i < part.len() implies low <= #[trigger] part[i] <= high by {
        assert(part[i] == samples[start + i]);
    }
    lemma_sum_within(part, low, high);
    lemma_quotient_within(sample_sum(part), width, low as int, high as int);
}

/// Bytes that end with a whole sample can be read apart from what follows.
pub proof fn law_pcm_of_bytes_by_parts(first: Seq<u8>, second: Seq<u8>)
    requires
        first.len() % 2 == 0,
    ensures
        pcm_of_bytes(first + second) == pcm_of_bytes(first) + pcm_of_bytes(second),
{
    let whole = first + second;
    let half = (first.len() / 2) as int;
    assert forall|i: int| 0 <= i < whole.len() / 2 implies #[trigger] pcm_of_bytes(whole)[i] == (
    pcm_of_bytes(first) + pcm_of_bytes(second))[i] by {
        if i >= half {
            assert(whole[2 * i] == second[2 * (i - half)]);
            assert(whole[2 * i + 1] == second[2 * (i - half) + 1]);
        }
    }
    assert(pcm_of_bytes(whole) =~= pcm_of_bytes(first) + pcm_of_bytes(second));
}

/// Samples can be written part by part.
pub proof fn law_bytes_of_pcm_by_parts(first: Seq<i16>, second: Seq<i16>)
    ensures
        bytes_of_pcm(first + second) == bytes_of_pcm(first) + bytes_of_pcm(second),
{
    let whole = first + second;
    let split = 2 * first.len() as int;
    assert forall|i: int| 0 <= i < 2 * whole.len() implies #[trigger] bytes_of_pcm(whole)[i] == (
    bytes_of_pcm(first) + bytes_of_pcm(second))[i] by {
        if i >= split {
            assert(whole[i / 2] == second[(i - split) / 2]);
        }
    }
    assert(bytes_of_pcm(whole) =~= bytes_of_pcm(first) + bytes_of_pcm(second));
}

/// Samples that end with a whole frame can be mixed apart from what follows.
pub proof fn law_mono_mix_by_parts(first: Seq<i16>, second: Seq<i16>, channels: u8)
    requires
        channels > 1 ==> first.len() % channels as nat == 0,
    ensures
        mono_mix(first + second, channels) == mono_mix(first, channels) + mono_mix(
            second,
            channels,
        ),
{
    if channels > 1 {
        let width = channels as int;
        let whole = first + second;
        let count = first.len() as int / width;
        let rest = second.len() as int / width;
        vstd::arithmetic::div_mod::lemma_fundamental_div_mod(first.len() as int, width);
        assert(first.len() == count * width) by (nonlinear_arith)
            requires
                first.len() == width * count,
        ;
        vstd::arithmetic::div_mod::lemma_hoist_over_denominator(
            second.len() as int,
            count,
            width as nat,
        );
        assert(whole.len() as int / width == count + rest);
        let parts = mono_mix(first, channels) + mono_mix(second, channels);
        assert forall|i: int| 0 <= i < count + rest implies #[trigger] mono_mix(whole, channels)[i]
            == parts[i] by {
            if i < count {
                assert(0 <= i * width && i * width + width <= first.len()) by (nonlinear_arith)
                    requires
                        0 <= i < count,
                        width > 1,
                        first.len() == count * width,
                ;
                assert(whole.subrange(i * width, i * width + width) =~= first.subrange(
                    i * width,
                    i * width + width,
                ));
            } else {
                let k = i - count;
                assert(i * width == count * width + k * width) by (nonlinear_arith)
                    requires
                        k == i - count,
                ;
                assert(0 <= k * width && k * width + width <= second.len()) by (nonlinear_arith)
                    requires
                        0 <= k < rest,
                        width > 1,
                        rest == second.len() as int / width,
                ;
                assert(whole.subrange(i * width, i * width + width) =~= second.subrange(
                    k * width,
                    k * width + width,
                ));
            }
        }
        assert(mono_mix(whole, channels) =~= parts);
    }
}

proof fn lemma_sum_within(samples: Seq<i16>, low: i16, high: i16)
    requires
        forall|i: int| 0 <= i < samples.len() ==> low <= #[trigger] samples[i] <= high,
    ensures
        low * samples.len() <= sample_sum(samples) <= high * samples.len(),
    decreases samples.len(),
{
    if samples.len() > 0 {
        let before = samples.drop_last();
        assert forall|i: int| 0 <= i < before.len() implies low <= #[trigger] before[i] <= high by {
            assert(before[i] == samples[i]);
        }
        lemma_sum_within(before, low, high);
        let count = samples.len() as int;
        assert(low * count == low * (count - 1) + low) by (nonlinear_arith);
        assert(high * count == high * (count - 1) + high) by (nonlinear_arith);
    } else {
        assert(low * samples.len() == 0 && high * samples.len() == 0) by (nonlinear_arith)
            requires
                samples.len() == 0,
        ;
    }
}

proof fn lemma_quotient_within(sum: int, count: int, low: int, high: int)
    requires
        0 < count,
        low * count <= sum <= high * count,
    ensures
        low <= quotient(sum, count) <= high,
{
    if sum < 0 {
        let size = (-sum) / count;
        assert(size <= -low && size >= 0) by (nonlinear_arith)
            requires
                0 < count,
                low * count <= sum,
                sum < 0,
                size == (-sum) / count,
        ;
        assert(-size <= high) by (nonlinear_arith)
            requires
                0 < count,
                sum <= high * count,
                sum < 0,
                size == (-sum) / count,
        ;
    } else {
        let size = sum / count;
        assert(low <= size <= high) by (nonlinear_arith)
            requires
                0 < count,
                low * count <= sum <= high * count,
                size == sum / count,
        ;
    }
}

} // verus!
