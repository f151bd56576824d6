//! Conversion of samples to 16-bit output formats, and the filling of
//! interleaved stereo buffers from a voice.
use crate::kick::{lemma_after_next, KickSynth};
use crate::units::{clamped, UNIT};
use vstd::prelude::*;

verus! {

/// Channels in one frame of output. Every channel of a frame carries the same
/// sample.
pub const CHANNELS: usize = 2;

/// `num / den` rounded toward zero.
pub open spec fn toward_zero(num: int, den: int) -> int {
    if num >= 0 {
        num / den
    } else {
        -((-num) / den)
    }
}

/// A sample held within full scale: what lies beyond either end is taken
/// for that end.
pub open spec fn within_full_scale(sample: int) -> int {
    clamped(sample, -(UNIT as int), UNIT as int)
}

/// A sample as a signed 16-bit value: the sample is first held within full
/// scale and then scaled, so that full scale maps to the largest value of the
/// format and minus full scale to its negative. Fractions are dropped.
pub open spec fn signed_16(sample: int) -> int {
    toward_zero(within_full_scale(sample) * i16::MAX, UNIT as int)
}

/// A sample as an unsigned 16-bit value: the sample is first held within full
/// scale and then scaled, so that the range from minus full scale to full
/// scale maps onto the whole format. Fractions are dropped.
pub open spec fn unsigned_16(sample: int) -> int {
    toward_zero((within_full_scale(sample) + UNIT) * u16::MAX, 2 * UNIT)
}

/// The number of frames that a buffer of `len` values holds, a last
/// incomplete one counted.
pub open spec fn frames_in(len: int) -> nat {
    ((len + 1) / 2) as nat
}

/// Whatever the sample, its signed conversion lies between the largest value
/// of the format and its negative, and its unsigned conversion inside the
/// format.
pub proof fn lemma_conversions_in_range(sample: int)
    ensures
        -i16::MAX <= signed_16(sample) <= i16::MAX,
        0 <= unsigned_16(sample) <= u16::MAX,
{
    assert(UNIT as int == 1_000_000);
}

/// Holds a sample within full scale.
fn hold_within_full_scale(sample: i64) -> (held: i32)
    ensures
        held == within_full_scale(sample as int),
        -UNIT <= held <= UNIT,
{
    assert(UNIT as int == 1_000_000);
    if sample < -1_000_000 {
        -1_000_000
    } else if sample > 1_000_000 {
        1_000_000
    } else {
        sample as i32
    }
}

/// Converts a sample to signed 16-bit, holding it within full scale before
/// scaling.
pub fn sample_to_i16(sample: i64) -> (value: i16)
    ensures
        value == signed_16(sample as int),
        -i16::MAX <= value <= i16::MAX,
{
    assert(UNIT as int == 1_000_000);
    let held: i32 = hold_within_full_scale(sample);
    let wide: i64 = (held as i64) * 32767;
    let whole: i64 = if wide >= 0 {
        wide / 1_000_000
    } else {
        -((-wide) / 1_000_000)
    };
    whole as i16
}

/// Converts a sample to unsigned 16-bit, holding it within full scale before
/// scaling.
pub fn sample_to_u16(sample: i64) -> (value: u16)
    ensures
        value == unsigned_16(sample as int),
{
    assert(UNIT as int == 1_000_000);
    let held: i32 = hold_within_full_scale(sample);
    let wide: i64 = ((held as i64) + 1_000_000) * 65535;
    let whole: i64 = wide / 2_000_000;
    whole as u16
}

/// Fills `output` with successive samples of `kick` as signed 16-bit stereo
/// frames: value `i` holds the sample of pull `i / 2`, held within full scale
/// and then scaled, so that no value written lies beyond the largest value of
/// the format or its negative.
pub fn write_data_i16(output: &mut [i16], kick: &mut KickSynth)
    ensures
        final(output)@.len() == old(output)@.len(),
        forall|i: int|
            0 <= i < old(output)@.len() ==> #[trigger] final(output)@[i] == signed_16(
                old(kick)@.sample_at((i / 2) as nat),
            ),
        forall|i: int|
            0 <= i < old(output)@.len() ==> -i16::MAX <= #[trigger] final(output)@[i] <= i16::MAX,
        final(kick)@ == old(kick)@.after(frames_in(old(output)@.len() as int)),
{
    let len: usize = output.len();
    let mut i: usize = 0;
    while i < len
        invariant
            output@.len() == len,
            i <= len,
            i % 2 == 0 || i == len,
            kick@ == old(kick)@.after(frames_in(i as int)),
            forall|j: int|
                0 <= j < i ==> #[trigger] output@[j] == signed_16(
                    old(kick)@.sample_at((j / 2) as nat),
                ),
            forall|j: int| 0 <= j < i ==> -i16::MAX <= #[trigger] output@[j] <= i16::MAX,
        decreases len - i,
    {
        proof {
            lemma_after_next(old(kick)@, frames_in(i as int));
        }
        let value: i16 = sample_to_i16(kick.next_sample());
        output[i] = value;
        if len - i >= CHANNELS {
            output[i + 1] = value;
            i = i + CHANNELS;
        } else {
            i = i + 1;
        }
    }
}

/// Fills `output` with successive samples of `kick` as unsigned 16-bit stereo
/// frames: value `i` holds the sample of pull `i / 2`, held within full scale
/// and then scaled.
pub fn write_data_u16(output: &mut [u16], kick: &mut KickSynth)
    ensures
        final(output)@.len() == old(output)@.len(),
        forall|i: int|
            0 <= i < old(output)@.len() ==> #[trigger] final(output)@[i] == unsigned_16(
                old(kick)@.sample_at((i / 2) as nat),
            ),
        final(kick)@ == old(kick)@.after(frames_in(old(output)@.len() as int)),
{
    let len: usize = output.len();
    let mut i: usize = 0;
    while i < len
        invariant
            output@.len() == len,
            i <= len,
            i % 2 == 0 || i == len,
            kick@ == old(kick)@.after(frames_in(i as int)),
            forall|j: int|
                0 <= j < i ==> #[trigger] output@[j] == unsigned_16(
                    old(kick)@.sample_at((j / 2) as nat),
                ),
        decreases len - i,
    {
        proof {
            lemma_after_next(old(kick)@, frames_in(i as int));
        }
        let value: u16 = sample_to_u16(kick.next_sample());
        output[i] = value;
        if len - i >= CHANNELS {
            output[i + 1] = value;
            i = i + CHANNELS;
        } else {
            i = i + 1;
        }
    }
}

} // verus!
