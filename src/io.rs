use vstd::prelude::*;
use crate::wave::{trunc_div, Stereo};
use crate::UNIT;

verus! {

/// A sample as a 16-bit PCM value: multiplied by `i16::MAX`, divided by
/// `full` (the sample that maps to `i16::MAX`), rounded towards zero, and
/// held to the range of `i16`.
pub open spec fn pcm16(x: int, full: int) -> int {
    let v = trunc_div(x * 32767, full);
    if v > 32767 {
        32767
    } else if v < -32768 {
        -32768
    } else {
        v
    }
}

fn pcm16_exec(x: i64, full: u64) -> (r: i16)
    requires
        full > 0,
    ensures
        r == pcm16(x as int, full as int),
{
    let p: i128 = x as i128 * 32767;
    let v: i128 = if p >= 0 {
        (p as u128 / full as u128) as i128
    } else {
        -(((-p) as u128 / full as u128) as i128)
    };
    if v > 32767 {
        32767
    } else if v < -32768 {
        -32768
    } else {
        v as i16
    }
}

/// Prepares a stereo track for saving with no settings to choose: its
/// frames as interleaved 16-bit PCM at full scale, right channel first, for
/// the caller to write to a file.
pub fn easy_save(track: &Stereo) -> (r: Vec<i16>)
    requires
        track.wf(),
        2 * track.right().len() <= usize::MAX,
    ensures
        r@.len() == 2 * track.right().len(),
        forall|k: int|
            0 <= k < track.right().len() ==> #[trigger] r@[2 * k] == pcm16(track.right()[k] as int, UNIT as int)
                && r@[2 * k + 1] == pcm16(track.left()[k] as int, UNIT as int),
{
    let right = track.get_right();
    let left = track.get_left();
    let mut out: Vec<i16> = Vec::with_capacity(2 * right.len());
    let mut i: usize = 0;
    while i < right.len()
        invariant
            right@ == track.right(),
            left@ == track.left(),
            right@.len() == left@.len(),
            i <= right@.len(),
            out@.len() == 2 * i,
            forall|k: int|
                0 <= k < i ==> #[trigger] out@[2 * k] == pcm16(right@[k] as int, UNIT as int) && out@[2 * k + 1]
                    == pcm16(left@[k] as int, UNIT as int),
        decreases right@.len() - i,
    {
        out.push(pcm16_exec(right[i], 1_000_000));
        out.push(pcm16_exec(left[i], 1_000_000));
        i = i + 1;
    }
    out
}

/// Mono samples as 16-bit PCM at a quarter of full scale (`4 * UNIT` maps
/// to `i16::MAX`), leaving headroom for mixed voices.
pub fn mono_frames(samples: &Vec<i64>) -> (r: Vec<i16>)
    ensures
        r@.len() == samples@.len(),
        forall|k: int|
            0 <= k < samples@.len() ==> #[trigger] r@[k] == pcm16(samples@[k] as int, 4 * UNIT),
{
    let mut out: Vec<i16> = Vec::with_capacity(samples.len());
    let mut i: usize = 0;
    while i < samples.len()
        invariant
            i <= samples@.len(),
            out@.len() == i,
            forall|k: int| 0 <= k < i ==> #[trigger] out@[k] == pcm16(samples@[k] as int, 4 * UNIT),
        decreases samples@.len() - i,
    {
        out.push(pcm16_exec(samples[i], 4_000_000));
        i = i + 1;
    }
    out
}

} // verus!
