//! Fitting arbitrary sources to a mixer's output format.
//!
//! A mixer only accepts sources that already produce its channel count and
//! sample rate. [`adapt_source`] wraps a source in the converters it needs,
//! following the engine's policy: a sample-rate mismatch always gets a
//! [`SampleRateConverter`], a channel-count mismatch gets a
//! [`ChannelConverter`] when either side is mono, and any other channel
//! mismatch is an error. When a device is renegotiated,
//! [`Mixer::set_config`] refits every registered sound to the new format.

use vstd::prelude::*;
use crate::SoundSource;
use crate::converter::{ChannelConverter, SampleRateConverter};
use crate::mixer::SoundEntry;

verus! {

/// A sound source wrapped in whatever converters fit it to a target format.
pub enum AdaptedSource<S: SoundSource> {
    /// The source already matched the target format.
    Plain(S),
    /// Only the channel count differed.
    Channels(ChannelConverter<S>),
    /// Only the sample rate differed.
    Rate(SampleRateConverter<S>),
    /// Both differed; the rate is converted first, then the channels.
    ChannelsOfRate(ChannelConverter<SampleRateConverter<S>>),
    /// Both differed on a refit; the channels are converted first, then the
    /// rate.
    RateOfChannels(SampleRateConverter<ChannelConverter<S>>),
}

impl<S: SoundSource> SoundSource for AdaptedSource<S> {
    open spec fn valid(&self) -> bool {
        match self {
            AdaptedSource::Plain(s) => s.valid(),
            AdaptedSource::Channels(s) => s.valid(),
            AdaptedSource::Rate(s) => s.valid(),
            AdaptedSource::ChannelsOfRate(s) => s.valid(),
            AdaptedSource::RateOfChannels(s) => s.valid(),
        }
    }

    open spec fn spec_channels(&self) -> u16 {
        match self {
            AdaptedSource::Plain(s) => s.spec_channels(),
            AdaptedSource::Channels(s) => s.spec_channels(),
            AdaptedSource::Rate(s) => s.spec_channels(),
            AdaptedSource::ChannelsOfRate(s) => s.spec_channels(),
            AdaptedSource::RateOfChannels(s) => s.spec_channels(),
        }
    }

    open spec fn spec_sample_rate(&self) -> u32 {
        match self {
            AdaptedSource::Plain(s) => s.spec_sample_rate(),
            AdaptedSource::Channels(s) => s.spec_sample_rate(),
            AdaptedSource::Rate(s) => s.spec_sample_rate(),
            AdaptedSource::ChannelsOfRate(s) => s.spec_sample_rate(),
            AdaptedSource::RateOfChannels(s) => s.spec_sample_rate(),
        }
    }

    proof fn lemma_valid_format(&self) {
        match self {
            AdaptedSource::Plain(s) => s.lemma_valid_format(),
            AdaptedSource::Channels(s) => s.lemma_valid_format(),
            AdaptedSource::Rate(s) => s.lemma_valid_format(),
            AdaptedSource::ChannelsOfRate(s) => s.lemma_valid_format(),
            AdaptedSource::RateOfChannels(s) => s.lemma_valid_format(),
        }
    }

    fn channels(&self) -> u16 {
        match self {
            AdaptedSource::Plain(s) => s.channels(),
            AdaptedSource::Channels(s) => s.channels(),
            AdaptedSource::Rate(s) => s.channels(),
            AdaptedSource::ChannelsOfRate(s) => s.channels(),
            AdaptedSource::RateOfChannels(s) => s.channels(),
        }
    }

    fn sample_rate(&self) -> u32 {
        match self {
            AdaptedSource::Plain(s) => s.sample_rate(),
            AdaptedSource::Channels(s) => s.sample_rate(),
            AdaptedSource::Rate(s) => s.sample_rate(),
            AdaptedSource::ChannelsOfRate(s) => s.sample_rate(),
            AdaptedSource::RateOfChannels(s) => s.sample_rate(),
        }
    }

    fn reset(&mut self) {
        match self {
            AdaptedSource::Plain(s) => s.reset(),
            AdaptedSource::Channels(s) => s.reset(),
            AdaptedSource::Rate(s) => s.reset(),
            AdaptedSource::ChannelsOfRate(s) => s.reset(),
            AdaptedSource::RateOfChannels(s) => s.reset(),
        }
    }

    fn write_samples(&mut self, buffer: &mut [i16]) -> (n: usize) {
        match self {
            AdaptedSource::Plain(s) => s.write_samples(buffer),
            AdaptedSource::Channels(s) => s.write_samples(buffer),
            AdaptedSource::Rate(s) => s.write_samples(buffer),
            AdaptedSource::ChannelsOfRate(s) => s.write_samples(buffer),
            AdaptedSource::RateOfChannels(s) => s.write_samples(buffer),
        }
    }
}

/// Wrap `source` so that it produces `channels` channels at `sample_rate`.
///
/// A differing sample rate always gets a converter. A differing channel
/// count is converted only when either side is mono; otherwise the source is
/// rejected, and that is the only way this fails.
pub fn adapt_source<S: SoundSource>(source: S, channels: u16, sample_rate: u32)
    -> (r: Result<AdaptedSource<S>, &'static str>)
    requires
        source.valid(),
        channels >= 1,
        sample_rate >= 1,
    ensures
        r is Err <==> (source.spec_channels() != channels && channels != 1
            && source.spec_channels() != 1),
        r matches Ok(a) ==> {
            &&& a.valid()
            &&& a.spec_channels() == channels
            &&& a.spec_sample_rate() == sample_rate
            &&& (a is Plain <==> (source.spec_channels() == channels
                && source.spec_sample_rate() == sample_rate))
            &&& (a is Channels <==> (source.spec_channels() != channels
                && source.spec_sample_rate() == sample_rate))
            &&& (a is Rate <==> (source.spec_channels() == channels
                && source.spec_sample_rate() != sample_rate))
            &&& (a is ChannelsOfRate <==> (source.spec_channels() != channels
                && source.spec_sample_rate() != sample_rate))
            &&& (a matches AdaptedSource::Plain(s) ==> s == source)
        },
{
    if source.sample_rate() != sample_rate {
        if source.channels() == channels {
            Ok(AdaptedSource::Rate(SampleRateConverter::new(source, sample_rate)))
        } else if channels == 1 || source.channels() == 1 {
            Ok(AdaptedSource::ChannelsOfRate(ChannelConverter::new(
                SampleRateConverter::new(source, sample_rate), channels)))
        } else {
            Err("Number of channels() do not match the output, and neither are 1")
        }
    } else if source.channels() == channels {
        Ok(AdaptedSource::Plain(source))
    } else if channels == 1 || source.channels() == 1 {
        Ok(AdaptedSource::Channels(ChannelConverter::new(source, channels)))
    } else {
        Err("Number of channels() do not match the output, and is not 1")
    }
}

/// Refit an already adapted source to a new target format: strip its old
/// converters and wrap the bare source anew, converting channels first and
/// the sample rate around that, as a device renegotiation does. The bare
/// source keeps its playback position; any channel conversion works for a
/// refit because averaging handles every channel pair.
pub fn readapt_source<S: SoundSource>(source: AdaptedSource<S>, channels: u16,
    sample_rate: u32) -> (r: AdaptedSource<S>)
    requires
        source.valid(),
        channels >= 1,
        sample_rate >= 1,
    ensures
        r.valid(),
        r.spec_channels() == channels,
        r.spec_sample_rate() == sample_rate,
{
    let bare: S = match source {
        AdaptedSource::Plain(s) => s,
        AdaptedSource::Channels(c) => c.into_inner(),
        AdaptedSource::Rate(c) => c.into_inner(),
        AdaptedSource::ChannelsOfRate(c) => c.into_inner().into_inner(),
        AdaptedSource::RateOfChannels(c) => c.into_inner().into_inner(),
    };
    proof {
        bare.lemma_valid_format();
    }
    if bare.channels() != channels {
        let converted = ChannelConverter::new(bare, channels);
        if converted.sample_rate() != sample_rate {
            AdaptedSource::RateOfChannels(SampleRateConverter::new(converted, sample_rate))
        } else {
            AdaptedSource::Channels(converted)
        }
    } else if bare.sample_rate() != sample_rate {
        AdaptedSource::Rate(SampleRateConverter::new(bare, sample_rate))
    } else {
        AdaptedSource::Plain(bare)
    }
}

/// Which mixing settings of an entry a reconfiguration keeps: everything but
/// the source's wrapping.
pub open spec fn entry_same_settings<A: SoundSource, B: SoundSource>(e1: SoundEntry<A>,
    e2: SoundEntry<B>) -> bool {
    &&& e2.id == e1.id
    &&& e2.volume == e1.volume
    &&& e2.group == e1.group
    &&& e2.looping == e1.looping
    &&& e2.remove_on_end == e1.remove_on_end
}

} // verus!
