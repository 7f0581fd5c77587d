//! Stereo framing of interleaved sample buffers: the audio callbacks hand
//! over buffers of `channels` samples per frame; the voice changer works on
//! one (left, right) pair per frame.

use vstd::prelude::*;
use vstd::arithmetic::div_mod::lemma_fundamental_div_mod_converse;

verus! {

/// How many frames a buffer of `len` samples holds, the last one possibly
/// short.
pub open spec fn frame_count(len: int, channels: int) -> int {
    if len % channels == 0 {
        len / channels
    } else {
        len / channels + 1
    }
}

/// How many samples frame `f` of a buffer of `len` samples has.
pub open spec fn frame_len(len: int, channels: int, f: int) -> int {
    let rest = len - f * channels;
    if rest < channels {
        rest
    } else {
        channels
    }
}

/// The last even channel of a frame of `n` samples.
pub open spec fn last_even(n: int) -> int {
    if (n - 1) % 2 == 0 {
        n - 1
    } else {
        n - 2
    }
}

/// The last odd channel of a frame of `n` samples.
pub open spec fn last_odd(n: int) -> int {
    if (n - 1) % 2 == 1 {
        n - 1
    } else {
        n - 2
    }
}

/// The pair that frame `f` of `s` gives: the even channels feed the left
/// side and the odd ones the right, the last of each winning; a side that no
/// channel feeds is `silence`.
pub open spec fn stereo_frame<T>(s: Seq<T>, channels: int, f: int, silence: T) -> (T, T) {
    let start = f * channels;
    let n = frame_len(s.len() as int, channels, f);
    (
        s[start + last_even(n)],
        if n >= 2 {
            s[start + last_odd(n)]
        } else {
            silence
        },
    )
}

/// The pairs that the frames of `s` give, in order.
pub open spec fn stereo_frames<T>(s: Seq<T>, channels: int, silence: T) -> Seq<(T, T)> {
    Seq::new(
        frame_count(s.len() as int, channels) as nat,
        |f: int| stereo_frame(s, channels, f, silence),
    )
}

/// The sample that channel `c` of a frame receives from `pair`: even channels
/// the left side, odd channels the right.
pub open spec fn channel_sample<T>(pair: (T, T), c: int) -> T {
    if c % 2 == 0 {
        pair.0
    } else {
        pair.1
    }
}

/// A buffer of `len` samples filled frame by frame from `pairs`.
pub open spec fn interleaved<T>(pairs: Seq<(T, T)>, channels: int, len: nat) -> Seq<T> {
    Seq::new(len, |i: int| channel_sample(pairs[i / channels], i % channels))
}

/// `frame_count` is the least number of frames of `channels` samples that
/// covers `len` samples.
pub proof fn lemma_frame_count_bounds(len: int, channels: int)
    requires
        len >= 0,
        channels > 0,
    ensures
        frame_count(len, channels) >= 0,
        frame_count(len, channels) * channels >= len,
        frame_count(len, channels) > 0 ==> (frame_count(len, channels) - 1) * channels < len,
{
    let q = len / channels;
    let r = len % channels;
    vstd::arithmetic::div_mod::lemma_fundamental_div_mod(len, channels);
    assert(len == channels * q + r);
    assert(0 <= r < channels);
    assert(q >= 0) by (nonlinear_arith)
        requires
            len == channels * q + r,
            0 <= r < channels,
            len >= 0,
    ;
    if r == 0 {
        assert(q * channels == len) by (nonlinear_arith)
            requires
                len == channels * q + r,
                r == 0,
        ;
        assert(q > 0 ==> (q - 1) * channels < len) by (nonlinear_arith)
            requires
                q * channels == len,
                channels > 0,
        ;
    } else {
        assert((q + 1) * channels >= len) by (nonlinear_arith)
            requires
                len == channels * q + r,
                r < channels,
        ;
        assert(q * channels < len) by (nonlinear_arith)
            requires
                len == channels * q + r,
                r > 0,
        ;
    }
}

/// Any count of frames that covers `len` samples and would not with one
/// frame fewer is `frame_count`.
pub proof fn lemma_frame_count_unique(len: int, channels: int, k: int)
    requires
        len >= 0,
        channels > 0,
        k >= 0,
        k * channels >= len,
        k > 0 ==> (k - 1) * channels < len,
    ensures
        frame_count(len, channels) == k,
{
    lemma_frame_count_bounds(len, channels);
    let m = frame_count(len, channels);
    if m < k {
        assert(m * channels <= (k - 1) * channels) by (nonlinear_arith)
            requires
                m <= k - 1,
                channels > 0,
        ;
    } else if m > k {
        assert(k * channels <= (m - 1) * channels) by (nonlinear_arith)
            requires
                k <= m - 1,
                channels > 0,
        ;
    }
}

/// The number of frames in a buffer of `len` samples.
pub fn count_frames(len: usize, channels: usize) -> (r: usize)
    requires
        channels > 0,
    ensures
        r == frame_count(len as int, channels as int),
{
    let q = len / channels;
    if len % channels == 0 {
        q
    } else {
        proof {
            vstd::arithmetic::div_mod::lemma_fundamental_div_mod(len as int, channels as int);
            assert(q * channels + len % channels == len) by (nonlinear_arith)
                requires
                    len == channels * q + len % channels,
            ;
            assert(q < len) by (nonlinear_arith)
                requires
                    q * channels + len % channels == len,
                    len % channels > 0,
                    channels >= 1,
                    q >= 0,
            ;
        }
        q + 1
    }
}

/// Splits an interleaved buffer into one (left, right) pair per frame.
pub fn split_stereo<T: Copy>(input: &[T], channels: usize, silence: T) -> (r: Vec<(T, T)>)
    requires
        channels > 0,
    ensures
        r@ == stereo_frames(input@, channels as int, silence),
{
    let len = input.len();
    let mut r: Vec<(T, T)> = Vec::new();
    let mut start: usize = 0;
    assert(r@.len() * channels == 0) by (nonlinear_arith)
        requires
            r@.len() == 0,
    ;
    while start < len
        invariant
            len == input@.len(),
            channels > 0,
            start <= len,
            start < len ==> start == r@.len() * channels,
            r@.len() * channels >= start,
            r@.len() > 0 ==> (r@.len() - 1) * channels < start,
            forall|f: int|
                0 <= f < r@.len() ==> #[trigger] r@[f] == stereo_frame(
                    input@,
                    channels as int,
                    f,
                    silence,
                ),
        decreases len - start,
    {
        let n = if len - start < channels {
            len - start
        } else {
            channels
        };
        let ghost k = r@.len() as int;
        assert(n == frame_len(len as int, channels as int, k));
        let mut left = silence;
        let mut right = silence;
        let mut c: usize = 0;
        while c < n
            invariant
                len == input@.len(),
                start + n <= len,
                c <= n,
                c > 0 ==> left == input@[start + last_even(c as int)],
                c >= 2 ==> right == input@[start + last_odd(c as int)],
                c < 2 ==> right == silence,
            decreases n - c,
        {
            if c % 2 == 0 {
                left = input[start + c];
            } else {
                right = input[start + c];
            }
            c = c + 1;
        }
        let ghost before = r@;
        r.push((left, right));
        assert(r@[k] == stereo_frame(input@, channels as int, k, silence));
        assert forall|f: int| 0 <= f < r@.len() implies #[trigger] r@[f] == stereo_frame(
            input@,
            channels as int,
            f,
            silence,
        ) by {
            if f < k {
                assert(r@[f] == before[f]);
            }
        }
        assert((k + 1) * channels == k * channels + channels) by (nonlinear_arith);
        start = start + n;
    }
    proof {
        lemma_frame_count_unique(len as int, channels as int, r@.len() as int);
    }
    assert(r@ =~= stereo_frames(input@, channels as int, silence));
    r
}

/// Fills an interleaved buffer from one (left, right) pair per frame: every
/// even channel of a frame gets the left sample, every odd one the right.
pub fn fill_stereo<T: Copy>(output: &mut [T], channels: usize, pairs: &[(T, T)])
    requires
        channels > 0,
        pairs@.len() == frame_count(old(output)@.len() as int, channels as int),
    ensures
        final(output)@ == interleaved(pairs@, channels as int, old(output)@.len()),
{
    let len = output.len();
    proof {
        lemma_frame_count_bounds(len as int, channels as int);
    }
    let mut i: usize = 0;
    let mut f: usize = 0;
    let mut c: usize = 0;
    while i < len
        invariant
            len == output@.len(),
            len == old(output)@.len(),
            channels > 0,
            pairs@.len() == frame_count(len as int, channels as int),
            pairs@.len() * channels >= len,
            i <= len,
            c < channels,
            i == f * channels + c,
            forall|j: int|
                0 <= j < i ==> #[trigger] output@[j] == channel_sample(
                    pairs@[j / (channels as int)],
                    j % (channels as int),
                ),
        decreases len - i,
    {
        proof {
            lemma_fundamental_div_mod_converse(i as int, channels as int, f as int, c as int);
            assert(f < pairs@.len()) by (nonlinear_arith)
                requires
                    i == f * channels + c,
                    i < len,
                    pairs@.len() * channels >= len,
                    channels > 0,
                    c >= 0,
            ;
        }
        let pair = pairs[f];
        if c % 2 == 0 {
            output[i] = pair.0;
        } else {
            output[i] = pair.1;
        }
        i = i + 1;
        if c + 1 == channels {
            assert((f + 1) * channels == f * channels + channels) by (nonlinear_arith);
            f = f + 1;
            c = 0;
        } else {
            c = c + 1;
        }
    }
    assert(output@ =~= interleaved(pairs@, channels as int, old(output)@.len()));
}

/// Filling a buffer from pairs and splitting it again gives the pairs back
/// when frames have at least two channels; with a single channel only the
/// left side survives, and the right side reads as silence.
pub proof fn lemma_split_after_fill<T>(pairs: Seq<(T, T)>, channels: int, silence: T)
    requires
        channels > 0,
    ensures
        ({
            let buffer = interleaved(pairs, channels, (pairs.len() * channels) as nat);
            &&& channels >= 2 ==> stereo_frames(buffer, channels, silence) == pairs
            &&& channels == 1 ==> stereo_frames(buffer, channels, silence) == pairs.map_values(
                |p: (T, T)| (p.0, silence),
            )
        }),
{
    let k = pairs.len() as int;
    assert(k * channels >= 0) by (nonlinear_arith)
        requires
            k >= 0,
            channels > 0,
    ;
    let len = (k * channels) as nat;
    let buffer = interleaved(pairs, channels, len);
    assert(k > 0 ==> (k - 1) * channels < k * channels) by (nonlinear_arith)
        requires
            channels > 0,
    ;
    lemma_frame_count_unique(len as int, channels, k);
    assert forall|f: int| 0 <= f < k implies #[trigger] stereo_frame(buffer, channels, f, silence)
        == (if channels >= 2 {
        pairs[f]
    } else {
        (pairs[f].0, silence)
    }) by {
        let start = f * channels;
        assert(f * channels + channels <= k * channels) by (nonlinear_arith)
            requires
                f < k,
                channels > 0,
        ;
        assert(frame_len(len as int, channels, f) == channels);
        let le = last_even(channels);
        assert(0 <= le < channels && le % 2 == 0);
        lemma_fundamental_div_mod_converse(start + le, channels, f, le);
        assert(buffer[start + le] == pairs[f].0);
        if channels >= 2 {
            let lo = last_odd(channels);
            assert(0 <= lo < channels && lo % 2 == 1);
            lemma_fundamental_div_mod_converse(start + lo, channels, f, lo);
            assert(buffer[start + lo] == pairs[f].1);
        }
    }
    if channels >= 2 {
        assert(stereo_frames(buffer, channels, silence) =~= pairs);
    } else {
        assert(stereo_frames(buffer, channels, silence) =~= pairs.map_values(
            |p: (T, T)| (p.0, silence),
        ));
    }
}

} // verus!
