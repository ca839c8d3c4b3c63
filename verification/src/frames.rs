//! Reinterpretation of a flat buffer of interleaved samples as a sequence of
//! multi-channel frames.
//!
//! A frame is one multi-channel sample instant. Given a buffer whose length
//! is divisible by the channel count, the buffer is the concatenation of its
//! frames; frame `i`'s channel `c` is sample `i * channels + c`. Violating
//! the divisibility precondition is a programming error (a device or
//! configuration mismatch), so it is excluded by contract rather than
//! handled at run time.

use vstd::prelude::*;

verus! {

/// The concatenation of a sequence of frames back into a flat buffer.
pub open spec fn flatten_frames<T>(frames: Seq<Seq<T>>) -> Seq<T>
    decreases frames.len(),
{
    if frames.len() == 0 {
        Seq::empty()
    } else {
        flatten_frames(frames.drop_last()) + frames.last()
    }
}

/// Frames of width `channels` correctly reinterpret `buffer`: there are
/// exactly `buffer.len() / channels` of them, each holds `channels` samples,
/// and frame `i`'s channel `c` is `buffer[i * channels + c]`.
pub open spec fn frames_reinterpret<T>(buffer: Seq<T>, frames: Seq<Seq<T>>, channels: int) -> bool {
    &&& channels > 0
    &&& buffer.len() == frames.len() * channels
    &&& forall|i: int| 0 <= i < frames.len() ==> (#[trigger] frames[i]).len() == channels
    &&& forall|i: int, c: int|
        0 <= i < frames.len() && 0 <= c < channels ==> #[trigger] frames[i][c] == buffer[i * channels
            + c]
}

/// Reinterpret a flat interleaved buffer as frames of `channels` samples.
///
/// The result has exactly `input.len() / channels` frames and frame `i`'s
/// channel `c` equals `input[i * channels + c]`.
pub fn frame_n<T: Copy>(input: &Vec<T>, channels: usize) -> (frames: Vec<Vec<T>>)
    requires
        channels > 0,
        input.len() % channels == 0,
    ensures
        frames.len() == input.len() / channels,
        frames_reinterpret(input@, frames@.map_values(|f: Vec<T>| f@), channels as int),
{
    let frame_count: usize = input.len() / channels;
    proof {
        vstd::arithmetic::div_mod::lemma_fundamental_div_mod(input.len() as int, channels as int);
        assert(input.len() == frame_count * channels) by (nonlinear_arith)
            requires
                channels > 0,
                input.len() as int % channels as int == 0,
                frame_count == input.len() as int / channels as int,
                input.len() as int == channels * (input.len() as int / channels as int) + input.len()
                    as int % channels as int,
        ;
    }
    let mut frames: Vec<Vec<T>> = Vec::new();
    let mut i: usize = 0;
    while i < frame_count
        invariant
            channels > 0,
            frame_count == input.len() as int / channels as int,
            input.len() == frame_count * channels,
            i <= frame_count,
            frames.len() == i,
            forall|k: int| 0 <= k < i ==> (#[trigger] frames@[k])@.len() == channels,
            forall|k: int, c: int|
                0 <= k < i && 0 <= c < channels ==> #[trigger] frames@[k]@[c] == input@[k * channels
                    + c],
        decreases frame_count - i,
    {
        let mut frame: Vec<T> = Vec::new();
        let mut c: usize = 0;
        proof {
            assert(i * channels + channels <= frame_count * channels) by (nonlinear_arith)
                requires
                    i < frame_count,
                    channels > 0,
            ;
        }
        while c < channels
            invariant
                channels > 0,
                i < frame_count,
                input.len() == frame_count * channels,
                i * channels + channels <= input.len(),
                c <= channels,
                frame.len() == c,
                forall|d: int| 0 <= d < c ==> #[trigger] frame@[d] == input@[i * channels + d],
            decreases channels - c,
        {
            frame.push(input[i * channels + c]);
            c += 1;
        }
        frames.push(frame);
        i += 1;
    }
    proof {
        assert(input.len() == frame_count * channels);
        let view = frames@.map_values(|f: Vec<T>| f@);
        assert(forall|k: int| 0 <= k < view.len() ==> (#[trigger] view[k]).len() == channels);
        assert(forall|k: int, c: int|
            0 <= k < view.len() && 0 <= c < channels ==> #[trigger] view[k][c] == input@[k * channels
                + c]);
    }
    frames
}

/// Copy a buffer of frames.
pub fn copy_frames<T: Copy>(input: &Vec<T>) -> (out: Vec<T>)
    ensures
        out@ == input@,
{
    let mut out: Vec<T> = Vec::new();
    let mut i: usize = 0;
    while i < input.len()
        invariant
            i <= input.len(),
            out@ == input@.take(i as int),
        decreases input.len() - i,
    {
        out.push(input[i]);
        proof {
            assert(out@ =~= input@.take(i + 1 as int));
        }
        i += 1;
    }
    proof {
        assert(out@ =~= input@);
    }
    out
}

/// Concatenating the frames of a reinterpretation recovers the buffer:
/// reinterpretation neither loses, duplicates, nor reorders a sample.
pub proof fn lemma_frames_round_trip<T>(buffer: Seq<T>, frames: Seq<Seq<T>>, channels: int)
    requires
        frames_reinterpret(buffer, frames, channels),
    ensures
        flatten_frames(frames) == buffer,
    decreases frames.len(),
{
    if frames.len() == 0 {
        assert(flatten_frames(frames) =~= buffer);
    } else {
        let head = frames.drop_last();
        let prefix = buffer.take((frames.len() - 1) * channels);
        assert((frames.len() - 1) * channels + channels == frames.len() * channels) by (nonlinear_arith);
        assert(forall|i: int, c: int|
            0 <= i < head.len() && 0 <= c < channels ==> #[trigger] head[i][c] == prefix[i * channels
                + c]) by {
            assert(forall|i: int, c: int|
                0 <= i < head.len() && 0 <= c < channels ==> 0 <= #[trigger] (i * channels + c)
                    < prefix.len()) by (nonlinear_arith)
                requires
                    channels > 0,
                    prefix.len() == head.len() * channels,
            ;
        }
        lemma_frames_round_trip(prefix, head, channels);
        assert(flatten_frames(frames) =~= buffer);
    }
}

} // verus!
