//! A verified audio mixing core: sound sources, channel and sample-rate
//! conversion, and a mixer that sums any number of concurrent sources into a
//! single interleaved 16-bit PCM stream.
//!
//! Samples of the individual channels are interleaved by frame, and full scale
//! is `i16::MIN..=i16::MAX`. Gains are fixed-point values with 32 fractional
//! bits (see [`GAIN_ONE`]), so that every mixing step has an exact integer
//! specification.

use vstd::prelude::*;

pub mod converter;
pub mod engine;
pub mod gain;
pub mod mixer;

pub use mixer::Mixer;

verus! {

/// The number of samples processed per second for a single channel of audio.
#[derive(Debug, Clone, Copy, PartialEq, Eq, Structural)]
pub struct SampleRate(pub u32);

/// Identifies one sound registered with a mixer; assigned at registration and
/// never reused by that mixer.
pub type SoundId = u64;

/// A fixed-point gain with 32 fractional bits: `GAIN_ONE` is unity gain.
pub type Gain = u64;

/// Unity gain in the fixed-point encoding (1 shifted left by 32 bits).
pub const GAIN_ONE: u64 = 0x1_0000_0000;

/// A pull-based producer of interleaved 16-bit PCM samples.
///
/// `write_samples` fills a prefix of the buffer and returns how many samples
/// were produced; a return value smaller than the buffer length means the
/// source has ended. Buffer lengths handed in, and counts handed back, are
/// whole frames: multiples of `channels()`.
pub trait SoundSource {
    /// Well-formedness of the source's internal state.
    spec fn valid(&self) -> bool;

    /// The number of interleaved channels, constant over the source's life.
    spec fn spec_channels(&self) -> u16;

    /// The sample rate in Hz, constant over the source's life.
    spec fn spec_sample_rate(&self) -> u32;

    /// A valid source has at least one channel and a positive sample rate.
    proof fn lemma_valid_format(&self)
        requires
            self.valid(),
        ensures
            self.spec_channels() >= 1,
            self.spec_sample_rate() >= 1,
    ;

    /// Return the number of channels.
    fn channels(&self) -> (c: u16)
        requires
            self.valid(),
        ensures
            c == self.spec_channels(),
    ;

    /// Return the sample rate.
    fn sample_rate(&self) -> (r: u32)
        requires
            self.valid(),
        ensures
            r == self.spec_sample_rate(),
    ;

    /// Restart production from the beginning.
    fn reset(&mut self)
        requires
            old(self).valid(),
        ensures
            final(self).valid(),
            final(self).spec_channels() == old(self).spec_channels(),
            final(self).spec_sample_rate() == old(self).spec_sample_rate(),
    ;

    /// Fill a prefix of `buffer` and return how many samples were written.
    ///
    /// A result smaller than `buffer.len()` means the source has ended.
    /// Samples at positions `n..` are unspecified afterwards.
    fn write_samples(&mut self, buffer: &mut [i16]) -> (n: usize)
        requires
            old(self).valid(),
            old(buffer)@.len() as int % (old(self).spec_channels() as int) == 0,
        ensures
            final(self).valid(),
            final(self).spec_channels() == old(self).spec_channels(),
            final(self).spec_sample_rate() == old(self).spec_sample_rate(),
            n <= old(buffer)@.len(),
            n as int % (old(self).spec_channels() as int) == 0,
            final(buffer)@.len() == old(buffer)@.len(),
    ;
}

/// A source that plays back a fixed buffer of interleaved samples once.
pub struct BufferSource {
    /// The sample rate the buffered samples were produced at.
    pub sample_rate: u32,
    /// The number of interleaved channels in `buffer`.
    pub channels: u16,
    /// The samples, interleaved by frame; a whole number of frames.
    pub buffer: Vec<i16>,
    /// The read position: how many samples were already handed out.
    pub i: usize,
}

impl BufferSource {
    /// Copy the next samples of the buffer into `out`: as many as fit, or
    /// as many as remain. The read position advances by the count returned.
    pub fn write_samples(&mut self, out: &mut [i16]) -> (n: usize)
        requires
            old(self).i <= old(self).buffer.len(),
        ensures
            n == vstd::math::min(old(self).buffer@.len() - old(self).i,
                old(out)@.len() as int),
            final(out)@.len() == old(out)@.len(),
            forall|k: int| 0 <= k < n
                ==> final(out)@[k] == old(self).buffer@[old(self).i + k],
            forall|k: int| n <= k < old(out)@.len() ==> final(out)@[k] == old(out)@[k],
            final(self).i == old(self).i + n,
            final(self).buffer == old(self).buffer,
            final(self).channels == old(self).channels,
            final(self).sample_rate == old(self).sample_rate,
    {
        let remaining = self.buffer.len() - self.i;
        let len = if remaining < out.len() {
            remaining
        } else {
            out.len()
        };
        let mut k: usize = 0;
        while k < len
            invariant
                k <= len,
                len <= out@.len(),
                self == old(self),
                self.i + len <= self.buffer.len(),
                out@.len() == old(out)@.len(),
                forall|m: int| 0 <= m < k ==> out@[m] == self.buffer@[self.i + m],
                forall|m: int| k <= m < out@.len() ==> out@[m] == old(out)@[m],
            decreases len - k,
        {
            let v = self.buffer[self.i + k];
            out[k] = v;
            k += 1;
        }
        self.i = self.i + len;
        len
    }
}

impl SoundSource for BufferSource {
    open spec fn valid(&self) -> bool {
        &&& self.channels >= 1
        &&& self.sample_rate >= 1
        &&& self.i <= self.buffer.len()
        &&& self.buffer@.len() as int % (self.channels as int) == 0
        &&& self.i as int % (self.channels as int) == 0
    }

    open spec fn spec_channels(&self) -> u16 {
        self.channels
    }

    open spec fn spec_sample_rate(&self) -> u32 {
        self.sample_rate
    }

    proof fn lemma_valid_format(&self) {
    }

    fn channels(&self) -> u16 {
        self.channels
    }

    fn sample_rate(&self) -> u32 {
        self.sample_rate
    }

    fn reset(&mut self) {
        self.i = 0;
    }

    fn write_samples(&mut self, buffer: &mut [i16]) -> (n: usize)
    {
        let n = self.write_samples(buffer);
        proof {
            if n != old(buffer)@.len() {
                lemma_multiple_sub(old(self).buffer@.len() as int, old(self).i as int,
                    self.channels as int);
            }
            lemma_multiple_add(old(self).i as int, n as int, self.channels as int);
        }
        n
    }
}

/// Relies on `<[T]>::swap`: exchanges the elements at the two indices and
/// moves nothing else.
#[verifier::external_body]
pub(crate) fn vec_swap<T>(v: &mut Vec<T>, i: usize, j: usize)
    requires
        i < old(v).len(),
        j < old(v).len(),
    ensures
        final(v)@ == old(v)@.update(i as int, old(v)@[j as int]).update(j as int,
            old(v)@[i as int]),
{
    v.swap(i, j);
}

/// The difference of two multiples of a positive `m` is a multiple of `m`.
pub proof fn lemma_multiple_sub(a: int, b: int, m: int)
    requires
        m >= 1,
        a % m == 0,
        b % m == 0,
    ensures
        (a - b) % m == 0,
{
    vstd::arithmetic::div_mod::lemma_sub_mod_noop(a, b, m);
    vstd::arithmetic::div_mod::lemma_small_mod(0nat, m as nat);
}

/// The sum of two multiples of a positive `m` is a multiple of `m`.
pub proof fn lemma_multiple_add(a: int, b: int, m: int)
    requires
        m >= 1,
        a % m == 0,
        b % m == 0,
    ensures
        (a + b) % m == 0,
{
    vstd::arithmetic::div_mod::lemma_add_mod_noop(a, b, m);
    vstd::arithmetic::div_mod::lemma_small_mod(0nat, m as nat);
}

} // verus!
