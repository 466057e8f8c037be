//! Converting a sound source's parameters: the number of channels and the
//! sample rate.
//!
//! Channel conversion averages all input channels of a frame and broadcasts
//! the mean to every output channel. Sample-rate conversion interpolates
//! linearly between neighbouring input frames, working cycle by cycle: one
//! cycle is `in_rate / gcd` input frames mapped exactly onto `out_rate / gcd`
//! output frames, so no drift accumulates whatever the output buffer sizes.

use vstd::prelude::*;
use crate::SoundSource;
use crate::gain::{div_trunc, lemma_div_trunc_bounds, div_trunc_i64};
use crate::{lemma_multiple_add, lemma_multiple_sub};

verus! {

/// A positive multiple of `m` is at least `m`.
pub proof fn lemma_pos_multiple_ge(a: int, m: int)
    requires
        m >= 1,
        a >= 1,
        a % m == 0,
    ensures
        a >= m,
{
    vstd::arithmetic::div_mod::lemma_fundamental_div_mod(a, m);
    assert(a >= m) by (nonlinear_arith)
        requires
            a == m * (a / m),
            a >= 1,
            m >= 1,
    ;
}

/// The greatest common divisor, by Euclid's recurrence.
pub open spec fn spec_gcd(a: nat, b: nat) -> nat
    decreases b,
{
    if b == 0 {
        a
    } else {
        spec_gcd(b, a % b)
    }
}

/// The gcd of `a >= 1` and `b` is positive and divides both.
pub proof fn lemma_gcd_divides(a: nat, b: nat)
    requires
        a >= 1,
    ensures
        spec_gcd(a, b) >= 1,
        a as int % (spec_gcd(a, b) as int) == 0,
        b as int % (spec_gcd(a, b) as int) == 0,
    decreases b,
{
    let g = spec_gcd(a, b) as int;
    if b == 0 {
        vstd::arithmetic::div_mod::lemma_mod_self_0(a as int);
        vstd::arithmetic::div_mod::lemma_small_mod(0nat, a);
    } else {
        lemma_gcd_divides(b, a % b);
        let ai = a as int;
        let bi = b as int;
        let ri = (a % b) as int;
        vstd::arithmetic::div_mod::lemma_fundamental_div_mod(ai, bi);
        vstd::arithmetic::div_mod::lemma_fundamental_div_mod(bi, g);
        vstd::arithmetic::div_mod::lemma_fundamental_div_mod(ri, g);
        let q = (bi / g) * (ai / bi) + ri / g;
        assert(ai == q * g) by (nonlinear_arith)
            requires
                ai == bi * (ai / bi) + ri,
                bi == g * (bi / g),
                ri == g * (ri / g),
                q == (bi / g) * (ai / bi) + ri / g,
        ;
        vstd::arithmetic::div_mod::lemma_mod_multiples_basic(q, g);
    }
}

/// Over one whole conversion cycle the consumed and produced sample counts
/// stand exactly in the ratio of the sample rates: a cycle consumes
/// `in_rate/g * channels` samples and produces `out_rate/g * channels`, and
/// those counts satisfy `consumed * out_rate == produced * in_rate`, so no
/// drift can accumulate over any number of cycles.
pub proof fn lemma_cycle_ratio(in_rate: int, out_rate: int, channels: int)
    requires
        1 <= in_rate,
        1 <= out_rate,
        1 <= channels,
    ensures
        ({
            let g = spec_gcd(in_rate as nat, out_rate as nat) as int;
            ((in_rate / g) * channels) * out_rate == ((out_rate / g) * channels) * in_rate
        }),
{
    lemma_gcd_divides(in_rate as nat, out_rate as nat);
    let g = spec_gcd(in_rate as nat, out_rate as nat) as int;
    vstd::arithmetic::div_mod::lemma_fundamental_div_mod(in_rate, g);
    vstd::arithmetic::div_mod::lemma_fundamental_div_mod(out_rate, g);
    assert(((in_rate / g) * channels) * out_rate == ((out_rate / g) * channels) * in_rate)
        by (nonlinear_arith)
        requires
            in_rate == g * (in_rate / g),
            out_rate == g * (out_rate / g),
    ;
}

/// Relies on `gcd::Gcd::gcd` (binary GCD): returns the greatest common
/// divisor of its arguments, here stated through Euclid's recurrence.
#[verifier::external_body]
fn gcd_u32(a: u32, b: u32) -> (g: u32)
    requires
        a >= 1,
    ensures
        g as nat == spec_gcd(a as nat, b as nat),
{
    gcd::Gcd::gcd(a, b)
}

/// One linearly interpolated sample: the weighted mix of neighbouring input
/// samples `a` (weight `q - r`) and `b` (weight `r`), divided by the cycle
/// denominator `q` and truncated toward zero.
pub open spec fn lerp_spec(a: int, b: int, r: int, q: int) -> int
    recommends
        1 <= q,
        0 <= r < q,
{
    div_trunc(a * (q - r) + b * r, q)
}

/// With interpolation weight zero the mix is exactly the first sample: the
/// positions an equal-rate conversion visits all carry weight zero, so such
/// a conversion reproduces its input sample for sample.
pub proof fn lemma_lerp_identity(a: int, b: int, q: int)
    requires
        1 <= q,
    ensures
        lerp_spec(a, b, 0, q) == a,
{
    assert(a * (q - 0) + b * 0 == a * q) by (nonlinear_arith);
    if a >= 0 {
        vstd::arithmetic::div_mod::lemma_div_by_multiple(a, q);
    } else {
        assert(-(a * q) == (-a) * q) by (nonlinear_arith);
        vstd::arithmetic::div_mod::lemma_div_by_multiple(-a, q);
    }
}

/// The interpolated value lies between its two inputs.
pub proof fn lemma_lerp_bounds(a: int, b: int, r: int, q: int)
    requires
        1 <= q,
        0 <= r < q,
        i16::MIN <= a <= i16::MAX,
        i16::MIN <= b <= i16::MAX,
    ensures
        i16::MIN <= lerp_spec(a, b, r, q) <= i16::MAX,
{
    let num = a * (q - r) + b * r;
    assert((i16::MIN as int) * q <= num <= (i16::MAX as int) * q) by (nonlinear_arith)
        requires
            num == a * (q - r) + b * r,
            1 <= q,
            0 <= r < q,
            i16::MIN <= a <= i16::MAX,
            i16::MIN <= b <= i16::MAX,
    ;
    lemma_div_trunc_bounds(num, q, i16::MIN as int, i16::MAX as int);
}

/// Compute one interpolated sample.
pub fn lerp_sample(a: i16, b: i16, r: u64, q: u64) -> (v: i16)
    requires
        1 <= q <= u32::MAX,
        r < q,
    ensures
        v as int == lerp_spec(a as int, b as int, r as int, q as int),
{
    proof {
        assert(-0x1_0000_0000_0000int <= (a as int) * (q as int - r as int)
            <= 0x1_0000_0000_0000int) by (nonlinear_arith)
            requires
                -0x8000 <= a as int <= 0x7FFF,
                0 <= q as int - r as int <= 0x1_0000_0000,
        ;
        assert(-0x1_0000_0000_0000int <= (b as int) * (r as int)
            <= 0x1_0000_0000_0000int) by (nonlinear_arith)
            requires
                -0x8000 <= b as int <= 0x7FFF,
                0 <= r as int <= 0x1_0000_0000,
        ;
        lemma_lerp_bounds(a as int, b as int, r as int, q as int);
    }
    let num: i64 = (a as i64) * ((q - r) as i64) + (b as i64) * (r as i64);
    let v = div_trunc_i64(num, q as i64);
    v as i16
}

/// The sum of the `n` samples starting at `lo`.
pub open spec fn frame_sum(s: Seq<i16>, lo: int, n: int) -> int
    decreases n,
{
    if n <= 0 {
        0
    } else {
        frame_sum(s, lo, n - 1) + s[lo + n - 1]
    }
}

/// The mean of one frame of `in_ch` samples starting at `lo`, truncated
/// toward zero.
pub open spec fn frame_mean(s: Seq<i16>, lo: int, in_ch: int) -> int
    recommends
        in_ch >= 1,
{
    div_trunc(frame_sum(s, lo, in_ch), in_ch)
}

/// Output sample `o` of a channel conversion: the mean of the input frame
/// that output frame `o / out_ch` came from, whichever output channel `o`
/// falls on.
pub open spec fn mixed_sample(input: Seq<i16>, in_ch: int, out_ch: int, o: int) -> int
    recommends
        in_ch >= 1,
        out_ch >= 1,
{
    frame_mean(input, (o / out_ch) * in_ch, in_ch)
}

/// A frame sum is bounded by the sample range times the frame width.
pub proof fn lemma_frame_sum_bounds(s: Seq<i16>, lo: int, n: int)
    requires
        0 <= n,
        0 <= lo,
        lo + n <= s.len(),
    ensures
        n * (i16::MIN as int) <= frame_sum(s, lo, n) <= n * (i16::MAX as int),
    decreases n,
{
    if n > 0 {
        lemma_frame_sum_bounds(s, lo, n - 1);
    }
}

/// A frame sum reads only the samples of its frame: sequences that agree
/// there have the same sum.
pub proof fn lemma_frame_sum_congruence(s1: Seq<i16>, s2: Seq<i16>, lo: int, n: int)
    requires
        forall|i: int| lo <= i < lo + n ==> s1[i] == s2[i],
    ensures
        frame_sum(s1, lo, n) == frame_sum(s2, lo, n),
    decreases n,
{
    if n > 0 {
        lemma_frame_sum_congruence(s1, s2, lo, n - 1);
    }
}

/// Sum the `n` samples starting at `lo`.
pub fn sum_frame(s: &[i16], lo: usize, n: usize) -> (sum: i32)
    requires
        lo + n <= s.len(),
        n <= 0x1_0000,
    ensures
        sum as int == frame_sum(s@, lo as int, n as int),
{
    let mut sum: i32 = 0;
    let mut c: usize = 0;
    while c < n
        invariant
            c <= n,
            n <= 0x1_0000,
            lo + n <= s.len(),
            sum as int == frame_sum(s@, lo as int, c as int),
            (c as int) * (i16::MIN as int) <= sum as int <= (c as int) * (i16::MAX as int),
        decreases n - c,
    {
        proof {
            assert(frame_sum(s@, lo as int, c + 1 as int)
                == frame_sum(s@, lo as int, c as int) + s@[lo + c]);
        }
        sum = sum + s[lo + c] as i32;
        c += 1;
    }
    sum
}

/// The mean of a frame of samples is itself in the sample range.
pub proof fn lemma_frame_mean_bounds(s: Seq<i16>, lo: int, in_ch: int)
    requires
        1 <= in_ch,
        0 <= lo,
        lo + in_ch <= s.len(),
    ensures
        i16::MIN as int <= frame_mean(s, lo, in_ch) <= i16::MAX as int,
{
    lemma_frame_sum_bounds(s, lo, in_ch);
    assert((i16::MIN as int) * in_ch == in_ch * (i16::MIN as int)) by (nonlinear_arith);
    assert((i16::MAX as int) * in_ch == in_ch * (i16::MAX as int)) by (nonlinear_arith);
    lemma_div_trunc_bounds(frame_sum(s, lo, in_ch), in_ch, i16::MIN as int, i16::MAX as int);
}

/// Average each input frame of `src[..in_n]` down to one value and broadcast
/// it over the `out_ch` channels of the corresponding output frame of `dst`.
pub fn average_frames(dst: &mut [i16], src: &[i16], in_n: usize, in_ch: u16, out_ch: u16)
    -> (frames: usize)
    requires
        1 <= out_ch,
        1 <= in_ch,
        in_n <= src.len(),
        in_n as int % (in_ch as int) == 0,
        (in_n as int / in_ch as int) * (out_ch as int) <= old(dst).len(),
    ensures
        frames == in_n as int / in_ch as int,
        final(dst)@.len() == old(dst)@.len(),
        forall|o: int| 0 <= o < frames * (out_ch as int)
            ==> final(dst)@[o] == mixed_sample(src@, in_ch as int, out_ch as int, o),
        forall|o: int| frames * (out_ch as int) <= o < old(dst)@.len()
            ==> final(dst)@[o] == old(dst)@[o],
{
    let ic = in_ch as usize;
    let oc = out_ch as usize;
    let frames = in_n / ic;
    proof {
        vstd::arithmetic::div_mod::lemma_fundamental_div_mod(in_n as int, ic as int);
        vstd::arithmetic::mul::lemma_mul_is_commutative(ic as int, frames as int);
    }
    let mut f: usize = 0;
    while f < frames
        invariant
            f <= frames,
            1 <= ic <= 0x1_0000,
            1 <= oc <= 0x1_0000,
            frames * ic == in_n,
            in_n <= src.len(),
            frames * oc <= dst.len(),
            dst@.len() == old(dst)@.len(),
            forall|o: int| 0 <= o < f * oc
                ==> dst@[o] == mixed_sample(src@, ic as int, oc as int, o),
            forall|o: int| frames * oc <= o < dst@.len() ==> dst@[o] == old(dst)@[o],
        decreases frames - f,
    {
        proof {
            assert((f + 1) * ic <= frames * ic && (f + 1) * oc <= frames * oc
                && f * ic + ic == (f + 1) * ic && f * oc + oc == (f + 1) * oc)
                by (nonlinear_arith)
                requires
                    f < frames,
                    1 <= ic,
                    1 <= oc,
            ;
        }
        let sum = sum_frame(src, f * ic, ic);
        let mean64 = div_trunc_i64(sum as i64, ic as i64);
        proof {
            lemma_frame_mean_bounds(src@, (f * ic) as int, ic as int);
        }
        let mean = mean64 as i16;
        let mut c: usize = 0;
        while c < oc
            invariant
                c <= oc,
                f < frames,
                1 <= ic <= 0x1_0000,
                1 <= oc <= 0x1_0000,
                frames * ic == in_n,
                in_n <= src.len(),
                frames * oc <= dst.len(),
                f * oc + oc <= frames * oc,
                dst@.len() == old(dst)@.len(),
                mean as int == frame_mean(src@, (f * ic) as int, ic as int),
                forall|o: int| 0 <= o < f * oc
                    ==> dst@[o] == mixed_sample(src@, ic as int, oc as int, o),
                forall|o: int| f * oc <= o < f * oc + c ==> dst@[o] == mean,
                forall|o: int| frames * oc <= o < dst@.len() ==> dst@[o] == old(dst)@[o],
            decreases oc - c,
        {
            dst[f * oc + c] = mean;
            c += 1;
        }
        proof {
            assert forall|o: int| f * oc <= o < (f + 1) * oc
                implies dst@[o] == mixed_sample(src@, ic as int, oc as int, o) by {
                vstd::arithmetic::div_mod::lemma_fundamental_div_mod_converse(
                    o, oc as int, f as int, o - f * oc);
            }
        }
        f += 1;
    }
    frames
}

/// Expand the input frames sitting in `buf[..in_n]` in place: average each
/// input frame of `in_ch` samples and broadcast the mean over the `out_ch`
/// channels of the corresponding output frame. Frames are processed in
/// reverse so no write clobbers a yet-unread input sample.
pub fn spread_frames(buf: &mut [i16], in_n: usize, in_ch: u16, out_ch: u16) -> (frames: usize)
    requires
        1 <= in_ch < out_ch,
        in_n <= old(buf).len(),
        in_n as int % (in_ch as int) == 0,
        (in_n as int / in_ch as int) * (out_ch as int) <= old(buf).len(),
    ensures
        frames == in_n as int / in_ch as int,
        final(buf)@.len() == old(buf)@.len(),
        forall|o: int| 0 <= o < frames * (out_ch as int)
            ==> final(buf)@[o] == mixed_sample(old(buf)@, in_ch as int, out_ch as int, o),
        forall|o: int| frames * (out_ch as int) <= o < old(buf)@.len()
            ==> final(buf)@[o] == old(buf)@[o],
{
    let ic = in_ch as usize;
    let oc = out_ch as usize;
    let frames = in_n / ic;
    proof {
        vstd::arithmetic::div_mod::lemma_fundamental_div_mod(in_n as int, ic as int);
        vstd::arithmetic::mul::lemma_mul_is_commutative(ic as int, frames as int);
    }
    let mut f: usize = frames;
    while f > 0
        invariant
            f <= frames,
            1 <= ic <= 0x1_0000,
            1 <= oc <= 0x1_0000,
            ic < oc,
            frames * ic == in_n,
            in_n <= buf.len(),
            frames * oc <= buf.len(),
            buf@.len() == old(buf)@.len(),
            forall|i: int| 0 <= i < f * ic ==> buf@[i] == old(buf)@[i],
            forall|o: int| f * oc <= o < frames * oc
                ==> buf@[o] == mixed_sample(old(buf)@, ic as int, oc as int, o),
            forall|o: int| frames * oc <= o < buf@.len() ==> buf@[o] == old(buf)@[o],
        decreases f,
    {
        let g = f - 1;
        proof {
            assert(g * ic + ic == f * ic && g * oc + oc == f * oc
                && f * ic <= frames * ic && f * oc <= frames * oc
                && g * ic <= g * oc) by (nonlinear_arith)
                requires
                    g + 1 == f,
                    f <= frames,
                    1 <= ic < oc,
            ;
        }
        let sum = sum_frame(buf, g * ic, ic);
        proof {
            lemma_frame_sum_congruence(buf@, old(buf)@, (g * ic) as int, ic as int);
        }
        let mean64 = div_trunc_i64(sum as i64, ic as i64);
        proof {
            lemma_frame_mean_bounds(old(buf)@, (g * ic) as int, ic as int);
        }
        let mean = mean64 as i16;
        let mut c: usize = 0;
        while c < oc
            invariant
                c <= oc,
                g + 1 == f,
                f <= frames,
                1 <= ic <= 0x1_0000,
                1 <= oc <= 0x1_0000,
                ic < oc,
                frames * ic == in_n,
                in_n <= buf.len(),
                frames * oc <= buf.len(),
                g * ic <= g * oc,
                g * oc + oc == f * oc,
                f * oc <= frames * oc,
                buf@.len() == old(buf)@.len(),
                mean as int == frame_mean(old(buf)@, (g * ic) as int, ic as int),
                forall|i: int| 0 <= i < g * ic ==> buf@[i] == old(buf)@[i],
                forall|o: int| g * oc <= o < g * oc + c ==> buf@[o] == mean,
                forall|o: int| f * oc <= o < frames * oc
                    ==> buf@[o] == mixed_sample(old(buf)@, ic as int, oc as int, o),
                forall|o: int| frames * oc <= o < buf@.len() ==> buf@[o] == old(buf)@[o],
            decreases oc - c,
        {
            buf[g * oc + c] = mean;
            c += 1;
        }
        proof {
            assert forall|o: int| g * oc <= o < f * oc
                implies buf@[o] == mixed_sample(old(buf)@, ic as int, oc as int, o) by {
                vstd::arithmetic::div_mod::lemma_fundamental_div_mod_converse(
                    o, oc as int, g as int, o - g * oc);
            }
        }
        f = g;
    }
    frames
}

/// Dividing by one changes nothing under truncation.
proof fn lemma_div_trunc_one(x: int)
    ensures
        div_trunc(x, 1) == x,
{
    if x >= 0 {
        vstd::arithmetic::div_mod::lemma_div_by_multiple(x, 1);
        assert(x * 1 == x) by (nonlinear_arith);
    } else {
        vstd::arithmetic::div_mod::lemma_div_by_multiple(-x, 1);
        assert((-x) * 1 == -x) by (nonlinear_arith);
    }
}

/// Truncating division undoes multiplication exactly.
proof fn lemma_div_trunc_multiple(v: int, n: int)
    requires
        n >= 1,
    ensures
        div_trunc(n * v, n) == v,
{
    if v >= 0 {
        assert(n * v == v * n) by (nonlinear_arith);
        vstd::arithmetic::div_mod::lemma_div_by_multiple(v, n);
    } else {
        assert(-(n * v) == (-v) * n) by (nonlinear_arith);
        vstd::arithmetic::div_mod::lemma_div_by_multiple(-v, n);
    }
}

/// The sum of a frame whose samples are all `v` is the frame width times
/// `v`.
proof fn lemma_frame_sum_constant(s: Seq<i16>, lo: int, n: int, v: i16)
    requires
        0 <= n,
        forall|i: int| lo <= i < lo + n ==> s[i] == v,
    ensures
        frame_sum(s, lo, n) == n * (v as int),
    decreases n,
{
    if n <= 0 {
        assert(0 * (v as int) == 0) by (nonlinear_arith);
    } else {
        lemma_frame_sum_constant(s, lo, n - 1, v);
        assert((n - 1) * (v as int) + v as int == n * (v as int)) by (nonlinear_arith);
    }
}

/// Upmixing a mono stream to `n` channels and downmixing the result back to
/// mono returns the original samples exactly: replication followed by the
/// average of `n` equal values is the identity.
pub proof fn lemma_mono_roundtrip(s: Seq<i16>, n: int)
    requires
        1 <= n,
    ensures
        ({
            let up = Seq::new((s.len() * n) as nat,
                |o: int| mixed_sample(s, 1, n, o) as i16);
            forall|f: int| 0 <= f < s.len()
                ==> #[trigger] mixed_sample(up, n, 1, f) == s[f] as int
        }),
{
    let up = Seq::new((s.len() * n) as nat, |o: int| mixed_sample(s, 1, n, o) as i16);
    assert forall|f: int| 0 <= f < s.len()
        implies #[trigger] mixed_sample(up, n, 1, f) == s[f] as int by {
        // Each upmixed sample of frame f is exactly s[f].
        assert forall|c: int| 0 <= c < n implies #[trigger] up[f * n + c] == s[f] by {
            assert(0 <= f * n + c < s.len() * n) by (nonlinear_arith)
                requires
                    0 <= f < s.len(),
                    0 <= c < n,
            ;
            vstd::arithmetic::div_mod::lemma_fundamental_div_mod_converse(
                f * n + c, n, f, c);
            // One-sample frames sum to the sample itself.
            assert(frame_sum(s, f, 0) == 0);
            assert(frame_sum(s, f, 1) == s[f] as int);
            lemma_div_trunc_one(s[f] as int);
            assert(f * 1 == f) by (nonlinear_arith);
        }
        assert forall|i: int| f * n <= i < f * n + n implies up[i] == s[f] by {
            let c = i - f * n;
            assert(up[f * n + c] == s[f]);
        }
        lemma_div_trunc_one(f);
        assert(f / 1 == f) by {
            vstd::arithmetic::div_mod::lemma_div_by_multiple(f, 1);
            assert(f * 1 == f) by (nonlinear_arith);
        }
        lemma_frame_sum_constant(up, f * n, n, s[f]);
        lemma_div_trunc_multiple(s[f] as int, n);
    }
}

/// Convert a [`SoundSource`] to a different number of channels.
///
/// If the inner source already has the requested number of channels, samples
/// pass through unchanged. Otherwise every output channel of a frame
/// receives the average of all input channels of that frame.
pub struct ChannelConverter<T: SoundSource> {
    inner: T,
    /// The number of channels to convert to.
    channels: u16,
    /// A buffer to temporarily hold the input samples when downmixing.
    in_buffer: Vec<i16>,
}

impl<T: SoundSource> ChannelConverter<T> {
    /// Create a new ChannelConverter presenting `channels` channels over
    /// `inner`.
    pub fn new(inner: T, channels: u16) -> (r: Self)
        requires
            inner.valid(),
            channels >= 1,
        ensures
            r.valid(),
            r.spec_channels() == channels,
            r.spec_sample_rate() == inner.spec_sample_rate(),
    {
        Self { inner, channels, in_buffer: Vec::new() }
    }

    /// Take the wrapped source back out, at its current position.
    pub fn into_inner(self) -> (r: T)
        requires
            self.valid(),
        ensures
            r.valid(),
            r.spec_sample_rate() == self.spec_sample_rate(),
    {
        self.inner
    }
}

impl<T: SoundSource> SoundSource for ChannelConverter<T> {
    closed spec fn valid(&self) -> bool {
        &&& self.inner.valid()
        &&& self.channels >= 1
    }

    closed spec fn spec_channels(&self) -> u16 {
        self.channels
    }

    closed spec fn spec_sample_rate(&self) -> u32 {
        self.inner.spec_sample_rate()
    }

    proof fn lemma_valid_format(&self) {
        self.inner.lemma_valid_format();
    }

    fn channels(&self) -> u16 {
        self.channels
    }

    fn sample_rate(&self) -> u32 {
        self.inner.sample_rate()
    }

    fn reset(&mut self) {
        self.inner.reset()
    }

    fn write_samples(&mut self, out_buffer: &mut [i16]) -> (n: usize) {
        proof {
            self.inner.lemma_valid_format();
        }
        let in_ch: u16 = self.inner.channels();
        let out_ch: u16 = self.channels;
        let ic = in_ch as usize;
        let oc = out_ch as usize;
        if ic == oc {
            return self.inner.write_samples(out_buffer);
        }
        let frame_cap = out_buffer.len() / oc;
        proof {
            vstd::arithmetic::div_mod::lemma_fundamental_div_mod(
                out_buffer@.len() as int, oc as int);
            vstd::arithmetic::mul::lemma_mul_is_commutative(oc as int, frame_cap as int);
            assert(frame_cap * oc <= out_buffer@.len());
        }
        if ic < oc {
            // Read the input into a prefix of the output buffer, then expand
            // it in place; the input is the smaller, so nothing is clobbered.
            proof {
                vstd::arithmetic::mul::lemma_mul_inequality(ic as int, oc as int,
                    frame_cap as int);
                vstd::arithmetic::mul::lemma_mul_is_commutative(ic as int, frame_cap as int);
                vstd::arithmetic::mul::lemma_mul_is_commutative(oc as int, frame_cap as int);
            }
            let in_cap = frame_cap * ic;
            let (head, _) = out_buffer.split_at_mut(in_cap);
            proof {
                vstd::arithmetic::div_mod::lemma_mod_multiples_basic(
                    frame_cap as int, ic as int);
                vstd::arithmetic::mul::lemma_mul_is_commutative(ic as int, frame_cap as int);
            }
            let in_len = self.inner.write_samples(head);
            proof {
                vstd::arithmetic::div_mod::lemma_div_is_ordered(
                    in_len as int, in_cap as int, ic as int);
                vstd::arithmetic::div_mod::lemma_div_by_multiple(frame_cap as int, ic as int);
                vstd::arithmetic::mul::lemma_mul_inequality(
                    (in_len as int / ic as int), frame_cap as int, oc as int);
            }
            let frames = spread_frames(out_buffer, in_len, in_ch, out_ch);
            proof {
                vstd::arithmetic::div_mod::lemma_mod_multiples_basic(
                    frames as int, oc as int);
                vstd::arithmetic::mul::lemma_mul_inequality(
                    frames as int, frame_cap as int, oc as int);
            }
            frames * oc
        } else {
            // Downmix through the internal input buffer, which is grown once
            // to hold a full buffer's worth of input frames.
            while self.in_buffer.len() / ic < frame_cap
                invariant
                    1 <= ic,
                    self.inner == old(self).inner,
                    self.channels == old(self).channels,
                decreases frame_cap * ic - self.in_buffer.len(),
            {
                proof {
                    vstd::arithmetic::div_mod::lemma_fundamental_div_mod(
                        self.in_buffer@.len() as int, ic as int);
                    vstd::arithmetic::mul::lemma_mul_inequality(
                        (self.in_buffer@.len() as int / ic as int), frame_cap as int - 1,
                        ic as int);
                    vstd::arithmetic::mul::lemma_mul_is_commutative(ic as int,
                        (self.in_buffer@.len() as int / ic as int));
                    vstd::arithmetic::mul::lemma_mul_is_commutative(ic as int,
                        frame_cap as int - 1);
                    vstd::arithmetic::mul::lemma_mul_is_distributive_sub_other_way(
                        ic as int, frame_cap as int, 1);
                }
                self.in_buffer.push(0);
            }
            proof {
                vstd::arithmetic::div_mod::lemma_fundamental_div_mod(
                    self.in_buffer@.len() as int, ic as int);
                vstd::arithmetic::mul::lemma_mul_inequality(
                    frame_cap as int, (self.in_buffer@.len() as int / ic as int), ic as int);
                vstd::arithmetic::mul::lemma_mul_is_commutative(ic as int,
                    (self.in_buffer@.len() as int / ic as int));
            }
            let in_cap = frame_cap * ic;
            proof {
                vstd::arithmetic::div_mod::lemma_mod_multiples_basic(
                    frame_cap as int, ic as int);
                vstd::arithmetic::mul::lemma_mul_is_commutative(ic as int, frame_cap as int);
            }
            let buf_slice = self.in_buffer.as_mut_slice();
            let (head, _) = buf_slice.split_at_mut(in_cap);
            let in_len = self.inner.write_samples(head);
            proof {
                vstd::arithmetic::div_mod::lemma_div_is_ordered(
                    in_len as int, in_cap as int, ic as int);
                vstd::arithmetic::div_mod::lemma_div_by_multiple(frame_cap as int, ic as int);
                vstd::arithmetic::mul::lemma_mul_inequality(
                    (in_len as int / ic as int), frame_cap as int, oc as int);
            }
            let frames = average_frames(out_buffer, self.in_buffer.as_slice(), in_len,
                in_ch, out_ch);
            proof {
                vstd::arithmetic::div_mod::lemma_mod_multiples_basic(
                    frames as int, oc as int);
                vstd::arithmetic::mul::lemma_mul_inequality(
                    frames as int, frame_cap as int, oc as int);
            }
            frames * oc
        }
    }
}

/// Convert a [`SoundSource`] to a different sample rate by linear
/// interpolation.
///
/// The conversion proceeds in exact integer cycles: with
/// `g = gcd(in_rate, out_rate)`, every `in_rate / g` input frames map onto
/// exactly `out_rate / g` output frames, so the consumed-to-produced ratio
/// never drifts however the output is sliced into buffers.
pub struct SampleRateConverter<T: SoundSource> {
    inner: T,
    /// The output sample rate.
    output_sample_rate: u32,
    /// One cycle of input samples, preceded by a carried copy of the
    /// previous cycle's last frame so boundary interpolation needs no
    /// lookahead.
    in_buffer: Vec<i16>,
    /// The number of output samples of a full cycle.
    out_len: u64,
    /// How many valid input samples the current cycle holds, not counting
    /// the carried frame; less than a full cycle once the inner source ends.
    len: usize,
    /// The next output sample index within the current cycle.
    iter: u64,
}

impl<T: SoundSource> SampleRateConverter<T> {
    /// Create a new SampleRateConverter presenting `output_sample_rate` over
    /// `inner`.
    pub fn new(inner: T, output_sample_rate: u32) -> (r: Self)
        requires
            inner.valid(),
            output_sample_rate >= 1,
        ensures
            r.valid(),
            r.spec_channels() == inner.spec_channels(),
            r.spec_sample_rate() == output_sample_rate,
    {
        proof {
            inner.lemma_valid_format();
        }
        let in_rate = inner.sample_rate();
        let channels = inner.channels();
        let g = gcd_u32(in_rate, output_sample_rate);
        proof {
            lemma_gcd_divides(in_rate as nat, output_sample_rate as nat);
        }
        let in_f = in_rate / g;
        let out_f = output_sample_rate / g;
        let ch64 = channels as u64;
        proof {
            assert((in_f as int) * (ch64 as int) <= 0xFFFF_FFFFint * 0xFFFFint
                && (out_f as int) * (ch64 as int) <= 0xFFFF_FFFFint * 0xFFFFint)
                by (nonlinear_arith)
                requires
                    in_f <= 0xFFFF_FFFF,
                    out_f <= 0xFFFF_FFFF,
                    1 <= ch64 <= 0xFFFF,
            ;
        }
        let in_len: u64 = (in_f as u64) * ch64;
        let out_len: u64 = (out_f as u64) * ch64;
        let total: u64 = in_len + ch64;
        let mut in_buffer: Vec<i16> = Vec::new();
        while (in_buffer.len() as u64) < total
            invariant
                in_buffer@.len() <= total,
            decreases total - in_buffer@.len(),
        {
            in_buffer.push(0);
        }
        let mut this = Self {
            inner,
            output_sample_rate,
            in_buffer,
            out_len,
            len: 0,
            iter: 0,
        };
        proof {
            vstd::arithmetic::div_mod::lemma_small_mod(0nat, channels as nat);
        }
        this.reset();
        this
    }

    /// Take the wrapped source back out, at its current position.
    pub fn into_inner(self) -> (r: T)
        requires
            self.valid(),
        ensures
            r.valid(),
            r.spec_channels() == self.spec_channels(),
    {
        self.inner
    }
}

impl<T: SoundSource> SoundSource for SampleRateConverter<T> {
    closed spec fn valid(&self) -> bool {
        let ch = self.inner.spec_channels() as int;
        let g = spec_gcd(self.inner.spec_sample_rate() as nat,
            self.output_sample_rate as nat) as int;
        &&& self.inner.valid()
        &&& self.output_sample_rate >= 1
        &&& self.in_buffer@.len() == (self.inner.spec_sample_rate() as int / g) * ch + ch
        &&& self.out_len == (self.output_sample_rate as int / g) * ch
        &&& self.len + ch <= self.in_buffer@.len()
        &&& self.len as int % ch == 0
        &&& self.iter as int % ch == 0
        &&& self.iter <= self.out_len
    }

    closed spec fn spec_channels(&self) -> u16 {
        self.inner.spec_channels()
    }

    closed spec fn spec_sample_rate(&self) -> u32 {
        self.output_sample_rate
    }

    proof fn lemma_valid_format(&self) {
        self.inner.lemma_valid_format();
    }

    fn channels(&self) -> u16 {
        self.inner.channels()
    }

    fn sample_rate(&self) -> u32 {
        self.output_sample_rate
    }

    fn reset(&mut self) {
        proof {
            self.inner.lemma_valid_format();
            vstd::arithmetic::div_mod::lemma_small_mod(0nat,
                self.inner.spec_channels() as nat);
        }
        if self.output_sample_rate == self.inner.sample_rate() {
            // The equal-rate fast path delegates without buffering, so no
            // input may be consumed into the cycle buffer here either.
            self.inner.reset();
            self.len = 0;
            self.iter = 0;
            return;
        }
        let ch = self.inner.channels() as usize;
        self.inner.reset();
        proof {
            let ch_i = ch as int;
            let g_i = spec_gcd(self.inner.spec_sample_rate() as nat,
                self.output_sample_rate as nat) as int;
            let in_f = self.inner.spec_sample_rate() as int / g_i;
            vstd::arithmetic::div_mod::lemma_mod_multiples_basic(in_f + 1, ch_i);
            assert((in_f + 1) * ch_i == in_f * ch_i + ch_i) by (nonlinear_arith);
            vstd::arithmetic::mul::lemma_mul_is_commutative(in_f + 1, ch_i);
        }
        let buf_slice = self.in_buffer.as_mut_slice();
        let n = self.inner.write_samples(buf_slice);
        proof {
            vstd::arithmetic::div_mod::lemma_mod_self_0(ch as int);
            vstd::arithmetic::div_mod::lemma_small_mod(0nat, ch as nat);
            if n >= ch {
                lemma_multiple_sub(n as int, ch as int, ch as int);
            }
        }
        self.len = if n >= ch { n - ch } else { 0 };
        self.iter = 0;
    }

    fn write_samples(&mut self, buffer: &mut [i16]) -> (n: usize) {
        proof {
            self.inner.lemma_valid_format();
        }
        let ch16 = self.inner.channels();
        if self.output_sample_rate == self.inner.sample_rate() {
            return self.inner.write_samples(buffer);
        }
        let ch = ch16 as usize;
        let ch64 = ch16 as u64;
        let mut i: usize = 0;
        while i < buffer.len()
            invariant
                self.valid(),
                self.inner.spec_channels() == old(self).inner.spec_channels(),
                self.inner.spec_sample_rate() == old(self).inner.spec_sample_rate(),
                self.output_sample_rate == old(self).output_sample_rate,
                ch16 == self.inner.spec_channels(),
                ch == ch16 as usize,
                ch64 == ch16 as u64,
                1 <= ch,
                i <= buffer.len(),
                i as int % ch as int == 0,
                buffer@.len() as int % ch as int == 0,
                buffer@.len() == old(buffer)@.len(),
            decreases buffer.len() - i,
        {
            proof {
                self.inner.lemma_valid_format();
                lemma_gcd_divides(self.inner.spec_sample_rate() as nat,
                    self.output_sample_rate as nat);
            }
            let ghost g_i = spec_gcd(self.inner.spec_sample_rate() as nat,
                self.output_sample_rate as nat) as int;
            let ghost in_f_i = self.inner.spec_sample_rate() as int / g_i;
            let ghost out_f_i = self.output_sample_rate as int / g_i;
            proof {
                lemma_pos_multiple_ge(self.inner.spec_sample_rate() as int, g_i);
                lemma_pos_multiple_ge(self.output_sample_rate as int, g_i);
                vstd::arithmetic::div_mod::lemma_div_pos_is_pos(
                    self.inner.spec_sample_rate() as int, g_i);
                vstd::arithmetic::div_mod::lemma_div_non_zero(
                    self.inner.spec_sample_rate() as int, g_i);
                vstd::arithmetic::div_mod::lemma_div_non_zero(
                    self.output_sample_rate as int, g_i);
                vstd::arithmetic::div_mod::lemma_div_nonincreasing(
                    self.inner.spec_sample_rate() as int, g_i);
                vstd::arithmetic::div_mod::lemma_div_nonincreasing(
                    self.output_sample_rate as int, g_i);
                assert(in_f_i * (ch as int) >= 1 * 1 && out_f_i * (ch as int) >= 1 * 1)
                    by (nonlinear_arith)
                    requires
                        in_f_i >= 1,
                        out_f_i >= 1,
                        ch >= 1,
                ;
            }
            let in_len = self.in_buffer.len() - ch;
            proof {
                vstd::arithmetic::div_mod::lemma_mod_multiples_basic(in_f_i, ch as int);
                vstd::arithmetic::mul::lemma_mul_is_commutative(in_f_i, ch as int);
                vstd::arithmetic::div_mod::lemma_mod_multiples_basic(out_f_i, ch as int);
                vstd::arithmetic::mul::lemma_mul_is_commutative(out_f_i, ch as int);
            }
            proof {
                assert((self.out_len as int) * (self.len as int) < u128::MAX as int)
                    by (nonlinear_arith)
                    requires
                        0 <= self.out_len < 0x1_0000_0000_0000_0000,
                        0 <= self.len < 0x1_0000_0000_0000_0000,
                ;
            }
            let prod: u128 = (self.out_len as u128) * (self.len as u128);
            let dv: u128 = prod / (in_len as u128);
            let rm: u128 = prod % (in_len as u128);
            proof {
                vstd::arithmetic::div_mod::lemma_div_nonincreasing(
                    prod as int, in_len as int);
            }
            let up: u128 = if rm != 0 { dv + 1 } else { dv };
            proof {
                // up is at most a full cycle's output length
                assert((self.out_len as int) * (self.len as int)
                    <= (in_len as int) * (self.out_len as int)) by (nonlinear_arith)
                    requires
                        self.len <= in_len,
                        self.out_len >= 0,
                ;
                vstd::arithmetic::div_mod::lemma_multiply_divide_le(
                    prod as int, in_len as int, self.out_len as int);
                if rm != 0 {
                    vstd::arithmetic::div_mod::lemma_fundamental_div_mod(
                        prod as int, in_len as int);
                    assert(dv < self.out_len) by (nonlinear_arith)
                        requires
                            prod as int == (in_len as int) * (dv as int) + rm as int,
                            0 < rm as int,
                            dv <= self.out_len,
                            prod as int <= (in_len as int) * (self.out_len as int),
                    ;
                }
            }
            let curr: u64 = {
                let upf: u128 = up / (ch as u128);
                proof {
                    vstd::arithmetic::div_mod::lemma_fundamental_div_mod(
                        up as int, ch as int);
                    vstd::arithmetic::mul::lemma_mul_is_commutative(ch as int, upf as int);
                    vstd::arithmetic::div_mod::lemma_mod_division_less_than_divisor(
                        up as int, ch as int);
                }
                (upf * (ch as u128)) as u64
            };
            proof {
                vstd::arithmetic::div_mod::lemma_mod_multiples_basic(
                    (up / (ch as u128)) as int, ch as int);
                vstd::arithmetic::mul::lemma_mul_is_commutative(
                    ch as int, (up / (ch as u128)) as int);
            }
            let refilled: bool = if self.iter >= curr {
                if self.len < in_len {
                    return i;
                }
                // Carry the cycle's last frame to the front, then refill.
                let ghost pre = *self;
                let mut c: usize = 0;
                while c < ch
                    invariant
                        c <= ch,
                        self.inner == pre.inner,
                        self.len == pre.len,
                        self.iter == pre.iter,
                        self.out_len == pre.out_len,
                        self.output_sample_rate == pre.output_sample_rate,
                        self.in_buffer@.len() == pre.in_buffer@.len(),
                        pre.valid(),
                        pre.len + ch == pre.in_buffer@.len(),
                        self.len + ch <= self.in_buffer.len(),
                        ch == pre.inner.spec_channels() as usize,
                        1 <= ch,
                    decreases ch - c,
                {
                    let v = self.in_buffer[self.len + c];
                    self.in_buffer[c] = v;
                    c += 1;
                }
                let buf_slice = self.in_buffer.as_mut_slice();
                let (_, tail) = buf_slice.split_at_mut(ch);
                let n2 = self.inner.write_samples(tail);
                self.len = n2;
                self.iter = 0;
                true
            } else {
                false
            };
            // Emit one interpolated frame at position iter.
            let k: u64 = self.iter / ch64;
            let in_f64: u64 = (in_len / ch) as u64;
            let out_f64: u64 = self.out_len / ch64;
            proof {
                vstd::arithmetic::div_mod::lemma_div_by_multiple(in_f_i, ch as int);
                vstd::arithmetic::div_mod::lemma_div_by_multiple(out_f_i, ch as int);
                vstd::arithmetic::mul::lemma_mul_is_commutative(ch as int, in_f_i);
                vstd::arithmetic::mul::lemma_mul_is_commutative(ch as int, out_f_i);
                assert(in_f64 == in_f_i && out_f64 == out_f_i);
                if !refilled {
                    // iter < curr, both multiples of ch, so iter stays a
                    // whole frame short of curr.
                    let upf_i = (up / (ch as u128)) as int;
                    assert(curr as int == upf_i * (ch as int));
                    lemma_multiple_sub(curr as int, self.iter as int, ch as int);
                    lemma_pos_multiple_ge(curr as int - self.iter as int, ch as int);
                    vstd::arithmetic::div_mod::lemma_div_is_ordered(
                        self.iter as int, curr as int - ch as int, ch as int);
                    assert(upf_i >= 1) by (nonlinear_arith)
                        requires
                            curr as int == upf_i * (ch as int),
                            curr as int >= 1,
                            ch as int >= 1,
                    ;
                    assert((upf_i - 1) * (ch as int) == curr as int - ch as int)
                        by (nonlinear_arith)
                        requires
                            curr as int == upf_i * (ch as int),
                    ;
                    vstd::arithmetic::div_mod::lemma_div_by_multiple(upf_i - 1, ch as int);
                    vstd::arithmetic::div_mod::lemma_div_by_multiple(upf_i, ch as int);
                    vstd::arithmetic::div_mod::lemma_div_is_ordered(
                        curr as int, self.out_len as int, ch as int);
                    vstd::arithmetic::div_mod::lemma_div_by_multiple(out_f_i, ch as int);
                } else {
                    vstd::arithmetic::div_mod::lemma_div_of0(ch64 as int);
                }
                assert(k < out_f64);
                assert((k as int) * (in_f64 as int) < out_f_i * in_f_i) by (nonlinear_arith)
                    requires
                        k < out_f_i,
                        in_f64 == in_f_i,
                        in_f_i >= 1,
                        k >= 0,
                ;
                assert(out_f_i * in_f_i <= 0xFFFF_FFFFint * 0xFFFF_FFFFint)
                    by (nonlinear_arith)
                    requires
                        1 <= out_f_i <= 0xFFFF_FFFF,
                        1 <= in_f_i <= 0xFFFF_FFFF,
                ;
            }
            let num: u64 = k * in_f64;
            let jf: u64 = num / out_f64;
            let r: u64 = num % out_f64;
            proof {
                vstd::arithmetic::mul::lemma_mul_is_commutative(out_f_i, in_f_i);
                vstd::arithmetic::div_mod::lemma_multiply_divide_lt(
                    num as int, out_f_i, in_f_i);
                assert((jf as int) * (ch as int) <= (in_f_i - 1) * (ch as int))
                    by (nonlinear_arith)
                    requires
                        jf as int <= in_f_i - 1,
                        ch >= 1,
                        jf >= 0,
                ;
                assert((in_f_i - 1) * (ch as int) == in_f_i * (ch as int) - ch as int)
                    by (nonlinear_arith);
                lemma_multiple_sub(buffer@.len() as int, i as int, ch as int);
                lemma_pos_multiple_ge(buffer@.len() as int - i as int, ch as int);
            }
            let j: usize = (jf as usize) * ch;
            let ghost pre_emit = *self;
            let mut c: usize = 0;
            while c < ch
                invariant
                    c <= ch,
                    *self == pre_emit,
                    pre_emit.valid(),
                    ch == pre_emit.inner.spec_channels() as usize,
                    1 <= ch,
                    j + ch + ch <= self.in_buffer.len(),
                    i + ch <= buffer.len(),
                    1 <= out_f64 <= u32::MAX,
                    r < out_f64,
                    buffer@.len() == old(buffer)@.len(),
                decreases ch - c,
            {
                let a = self.in_buffer[j + c];
                let b = self.in_buffer[j + ch + c];
                let v = lerp_sample(a, b, r, out_f64);
                buffer[i + c] = v;
                c += 1;
            }
            proof {
                if refilled {
                    assert(ch as int * 1 <= ch as int * out_f_i) by (nonlinear_arith)
                        requires
                            out_f_i >= 1,
                            ch >= 1,
                    ;
                } else {
                    lemma_multiple_sub(curr as int, self.iter as int, ch as int);
                    lemma_pos_multiple_ge(curr as int - self.iter as int, ch as int);
                }
                lemma_multiple_add(self.iter as int, ch as int, ch as int);
                vstd::arithmetic::div_mod::lemma_mod_self_0(ch as int);
                lemma_multiple_add(i as int, ch as int, ch as int);
            }
            self.iter = self.iter + ch64;
            i = i + ch;
        }
        buffer.len()
    }
}

} // verus!
