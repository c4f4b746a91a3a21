//! Layout of stereo frames in an interleaved output buffer.

use vstd::prelude::*;
use vstd::arithmetic::div_mod::{lemma_fundamental_div_mod, lemma_fundamental_div_mod_converse};
use vstd::arithmetic::mul::{lemma_mul_inequality, lemma_mul_is_commutative};

verus! {

/// The sample that a channel of a frame carries: channels at even positions
/// carry the left sample, channels at odd positions the right one.
pub open spec fn channel_sample<T>(left: T, right: T, channel: int) -> T {
    if channel % 2 == 0 {
        left
    } else {
        right
    }
}

/// Writes one stereo pair into every channel of a frame.
pub fn write_frame<T: Copy>(frame: &mut [T], left: T, right: T)
    ensures
        final(frame)@.len() == old(frame)@.len(),
        forall|c: int|
            0 <= c < old(frame)@.len() ==> #[trigger] final(frame)@[c] == channel_sample(
                left,
                right,
                c,
            ),
{
    let n: usize = frame.len();
    let mut channel: usize = 0;
    while channel < n
        invariant
            channel <= n,
            frame@.len() == n,
            forall|c: int| 0 <= c < channel ==> #[trigger] frame@[c] == channel_sample(left, right, c),
        decreases n - channel,
    {
        assert(channel & 1 == channel % 2) by (bit_vector);
        if channel & 1 == 0 {
            frame[channel] = left;
        } else {
            frame[channel] = right;
        }
        channel += 1;
    }
}

/// Number of frames that a buffer of `len` samples holds when a frame has
/// `channels` samples. The last frame may be short.
pub open spec fn frame_count(len: int, channels: int) -> int {
    (len + channels - 1) / channels
}

/// The sample at position `i` of a buffer that holds `frames` in order.
pub open spec fn frame_sample<T>(frames: Seq<(T, T)>, channels: int, i: int) -> T {
    channel_sample(frames[i / channels].0, frames[i / channels].1, i % channels)
}

/// `out` holds exactly the stereo pairs `frames`, one per frame, each spread
/// over the channels of its frame.
pub open spec fn is_interleaved<T>(out: Seq<T>, channels: int, frames: Seq<(T, T)>) -> bool {
    &&& frames.len() == frame_count(out.len() as int, channels)
    &&& forall|i: int| 0 <= i < out.len() ==> #[trigger] out[i] == frame_sample(frames, channels, i)
}

proof fn lemma_position_in_frame(frame: int, channels: int, channel: int)
    requires
        0 <= channel < channels,
    ensures
        (frame * channels + channel) / channels == frame,
        (frame * channels + channel) % channels == channel,
{
    lemma_fundamental_div_mod_converse(frame * channels + channel, channels, frame, channel);
}

proof fn lemma_frame_before(i: int, frames: int, channels: int)
    requires
        0 < channels,
        0 <= i < frames * channels,
    ensures
        0 <= i / channels < frames,
{
    lemma_fundamental_div_mod(i, channels);
    let q = i / channels;
    if q >= frames {
        lemma_mul_inequality(frames, q, channels);
        lemma_mul_is_commutative(q, channels);
    }
    if q < 0 {
        lemma_mul_inequality(q, -1, channels);
        lemma_mul_is_commutative(q, channels);
    }
}

/// Fills the buffer frame by frame. Each frame takes one stereo pair from
/// `next_sample` and spreads it over its channels; a buffer that ends inside
/// a frame gets that frame's leading channels.
pub fn write_data<T: Copy, F: FnMut() -> (T, T)>(
    output: &mut [T],
    channels: usize,
    next_sample: &mut F,
)
    requires
        channels > 0,
        call_requires(*old(next_sample), ()),
    ensures
        final(output)@.len() == old(output)@.len(),
        exists|frames: Seq<(T, T)>|
            {
                &&& #[trigger] is_interleaved(final(output)@, channels as int, frames)
                &&& forall|k: int|
                    0 <= k < frames.len() ==> call_ensures(
                        *old(next_sample),
                        (),
                        #[trigger] frames[k],
                    )
            },
{
    let ghost total = output@.len();
    let ghost end_state: Seq<T> = final(output)@;
    let ghost source = *next_sample;
    let ghost mut done: Seq<T> = Seq::empty();
    let ghost mut frames: Seq<(T, T)> = Seq::empty();
    let mut rest: &mut [T] = output;
    proof {
        lemma_position_in_frame(0, channels as int, channels - 1);
    }
    while rest.len() > 0
        invariant
            channels > 0,
            *next_sample == source,
            call_requires(source, ()),
            end_state == done + final(rest)@,
            done.len() + rest@.len() == total,
            rest@.len() > 0 ==> done.len() == frames.len() * channels,
            frames.len() == frame_count(done.len() as int, channels as int),
            forall|k: int| 0 <= k < frames.len() ==> call_ensures(source, (), #[trigger] frames[k]),
            forall|i: int|
                0 <= i < done.len() ==> #[trigger] done[i] == frame_sample(
                    frames,
                    channels as int,
                    i,
                ),
        decreases rest@.len(),
    {
        let n: usize = if rest.len() < channels {
            rest.len()
        } else {
            channels
        };
        let (head, tail) = rest.split_at_mut(n);
        let (left, right) = next_sample();
        write_frame(head, left, right);
        proof {
            let k = frames.len() as int;
            let ch = channels as int;
            let new_done = done + head@;
            let new_frames = frames.push((left, right));
            assert((k + 1) * ch == k * ch + ch) by (nonlinear_arith);
            lemma_position_in_frame(k + 1, ch, n - 1);
            assert forall|i: int| 0 <= i < new_done.len() implies #[trigger] new_done[i]
                == frame_sample(new_frames, ch, i) by {
                if i < done.len() {
                    lemma_frame_before(i, k, ch);
                    assert(new_done[i] == done[i]);
                    assert(new_frames[i / ch] == frames[i / ch]);
                } else {
                    lemma_position_in_frame(k, ch, i - k * ch);
                    assert(new_done[i] == head@[i - k * ch]);
                    assert(new_frames[i / ch] == (left, right));
                }
            }
            done = new_done;
            frames = new_frames;
        }
        rest = tail;
    }
    proof {
        assert(end_state == done);
        assert(is_interleaved(end_state, channels as int, frames));
    }
}

} // verus!
