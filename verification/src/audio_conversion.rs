//! Conversion between interleaved and planar sample layouts.
//!
//! The playback pipeline decodes interleaved frames but resamples one
//! channel at a time, so every resample cycle splits the decoder output
//! into per-channel rows and merges the resampled rows back.

use vstd::pervasive::VecAdditionalExecFns;
use vstd::prelude::*;

verus! {

/// Merge per-channel rows into one interleaved buffer:
/// frame `i` of `output` receives sample `i` of every row.
pub fn planar_to_interleaved<S: Copy>(input: &Vec<Vec<S>>, output: &mut Vec<S>, channels: usize)
    requires
        channels > 0,
        input@.len() >= channels,
        forall|c: int| 0 <= c < channels ==> #[trigger] input@[c]@.len() >= old(
            output,
        )@.len() as int / channels as int,
    ensures
        final(output)@.len() == old(output)@.len(),
        forall|i: int, c: int|
            0 <= i < old(output)@.len() as int / channels as int && 0 <= c < channels
                ==> final(output)@[i * channels + c] == input@[c]@[i],
        forall|j: int|
            old(output)@.len() as int / channels as int * channels <= j < final(output)@.len()
                ==> final(output)@[j] == old(output)@[j],
{
    let olen: usize = output.len();
    let frames: usize = olen / channels;
    let ghost out0 = output@;
    proof {
        assert(frames * channels <= olen) by (nonlinear_arith)
            requires
                channels > 0,
                frames == olen as int / channels as int,
        ;
    }
    let mut i: usize = 0;
    while i < frames
        invariant
            channels > 0,
            olen == out0.len(),
            frames == olen as int / channels as int,
            frames * channels <= olen,
            i <= frames,
            input@.len() >= channels,
            forall|c: int| 0 <= c < channels ==> #[trigger] input@[c]@.len() >= frames,
            output@.len() == out0.len(),
            forall|f: int, c: int|
                0 <= f < i && 0 <= c < channels ==> output@[f * channels + c] == input@[c]@[f],
            forall|j: int| i * channels <= j < out0.len() ==> output@[j] == out0[j],
        decreases frames - i,
    {
        proof {
            assert(i * channels + channels <= frames * channels) by (nonlinear_arith)
                requires
                    i < frames,
                    channels > 0,
            ;
        }
        let mut c: usize = 0;
        while c < channels
            invariant
                channels > 0,
                i < frames,
                c <= channels,
                olen == out0.len(),
                i * channels + channels <= frames * channels <= olen,
                input@.len() >= channels,
                forall|cc: int| 0 <= cc < channels ==> #[trigger] input@[cc]@.len() >= frames,
                output@.len() == out0.len(),
                forall|f: int, cc: int|
                    0 <= f < i && 0 <= cc < channels ==> output@[f * channels + cc] == input@[cc]@[f],
                forall|cc: int| 0 <= cc < c ==> output@[i * channels + cc] == input@[cc]@[i as int],
                forall|j: int| i * channels + c <= j < out0.len() ==> output@[j] == out0[j],
            decreases channels - c,
        {
            proof {
                assert(forall|f: int, cc: int|
                    0 <= f < i && 0 <= cc < channels ==> #[trigger] (f * channels + cc) < i
                        * channels) by (nonlinear_arith);
            }
            output.set(i * channels + c, input[c][i]);
            c += 1;
        }
        proof {
            assert((i + 1) * channels == i * channels + channels) by (nonlinear_arith);
        }
        i += 1;
    }
    proof {
        assert(forall|f: int, c: int|
            0 <= f < frames && 0 <= c < channels ==> #[trigger] (f * channels + c) < frames
                * channels) by (nonlinear_arith);
    }
}

/// Split one interleaved buffer into per-channel rows:
/// row `c` receives sample `c` of every frame of `input`.
pub fn interleaved_to_planar<S: Copy>(input: &Vec<S>, output: &mut Vec<Vec<S>>, channels: usize)
    requires
        channels > 0,
        old(output)@.len() >= channels,
        forall|c: int| 0 <= c < channels ==> #[trigger] old(output)@[c]@.len() >= input@.len() as int
            / channels as int,
    ensures
        final(output)@.len() == old(output)@.len(),
        forall|c: int|
            0 <= c < channels ==> #[trigger] final(output)@[c]@.len() == old(output)@[c]@.len(),
        forall|i: int, c: int|
            0 <= i < input@.len() as int / channels as int && 0 <= c < channels
                ==> final(output)@[c]@[i] == input@[i * channels + c],
        forall|i: int, c: int|
            0 <= c < channels && input@.len() as int / channels as int <= i
                < final(output)@[c]@.len() ==> final(output)@[c]@[i] == old(output)@[c]@[i],
        forall|c: int| channels <= c < final(output)@.len() ==> final(output)@[c] == old(output)@[c],
{
    let ilen: usize = input.len();
    let frames: usize = ilen / channels;
    let ghost out0 = output@;
    proof {
        assert(frames * channels <= ilen) by (nonlinear_arith)
            requires
                channels > 0,
                frames == ilen as int / channels as int,
        ;
    }
    let mut c: usize = 0;
    while c < channels
        invariant
            channels > 0,
            c <= channels,
            ilen == input@.len(),
            frames == ilen as int / channels as int,
            frames * channels <= ilen,
            output@.len() == out0.len() >= channels,
            forall|cc: int| 0 <= cc < channels ==> #[trigger] out0[cc]@.len() >= frames,
            forall|cc: int| c <= cc < out0.len() ==> output@[cc] == out0[cc],
            forall|cc: int| 0 <= cc < c ==> #[trigger] output@[cc]@.len() == out0[cc]@.len(),
            forall|i: int, cc: int|
                0 <= i < frames && 0 <= cc < c ==> output@[cc]@[i] == input@[i * channels + cc],
            forall|i: int, cc: int|
                0 <= cc < c && frames <= i < output@[cc]@.len() ==> output@[cc]@[i] == out0[cc]@[i],
        decreases channels - c,
    {
        let mut row: Vec<S> = Vec::new();
        proof {
            assert(out0[c as int]@.len() >= frames);
        }
        output.set_and_swap(c, &mut row);
        let ghost row0 = row@;
        let mut i: usize = 0;
        while i < frames
            invariant
                channels > 0,
                c < channels,
                i <= frames,
                ilen == input@.len(),
                frames * channels <= ilen,
                row@.len() == row0.len() >= frames,
                forall|f: int| 0 <= f < i ==> row@[f] == input@[f * channels + c],
                forall|f: int| i <= f < row0.len() ==> row@[f] == row0[f],
            decreases frames - i,
        {
            proof {
                assert(i * channels + c < frames * channels) by (nonlinear_arith)
                    requires
                        i < frames,
                        c < channels,
                        channels > 0,
                ;
            }
            row.set(i, input[i * channels + c]);
            i += 1;
        }
        output.set_and_swap(c, &mut row);
        c += 1;
    }
}

} // verus!
