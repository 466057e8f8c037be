use audio_engine::converter::lerp_sample;
use audio_engine::engine::{adapt_source, AdaptedSource};
use audio_engine::gain::{apply_gain, combine_gains, sat_add_i16};
use audio_engine::mixer::{mix_into, Mixer};
use audio_engine::{BufferSource, SampleRate, SoundSource, GAIN_ONE};

fn buffer_source(sample_rate: u32, channels: u16, buffer: Vec<i16>) -> BufferSource {
    BufferSource {
        sample_rate,
        channels,
        buffer,
        i: 0,
    }
}

fn vol(v: f32) -> u64 {
    (v as f64 * 4294967296.0) as u64
}

#[test]
fn sat_add_saturates_both_ways() {
    assert_eq!(sat_add_i16(5, 7), 12);
    assert_eq!(sat_add_i16(i16::MAX, 1), i16::MAX);
    assert_eq!(sat_add_i16(i16::MAX, i16::MAX), i16::MAX);
    assert_eq!(sat_add_i16(i16::MIN, -1), i16::MIN);
    assert_eq!(sat_add_i16(-3, 3), 0);
}

#[test]
fn apply_gain_scales_and_clamps() {
    assert_eq!(apply_gain(vol(0.5), 100), 50);
    assert_eq!(apply_gain(vol(0.5), -101), -50);
    assert_eq!(apply_gain(vol(2.0), 20000), i16::MAX);
    assert_eq!(apply_gain(vol(2.0), -20000), i16::MIN);
    assert_eq!(apply_gain(0, 12345), 0);
}

#[test]
fn apply_gain_near_unity_is_identity() {
    assert_eq!(apply_gain(GAIN_ONE, -17), -17);
    assert_eq!(apply_gain(GAIN_ONE + 1, 32767), 32767);
    assert_eq!(apply_gain(GAIN_ONE - 1, -32768), -32768);
}

#[test]
fn apply_gain_fast_path_boundary() {
    // The widest gain still within 1/i16::MAX of unity passes samples
    // through; one step further and scaling kicks in.
    let inside = GAIN_ONE - 131076;
    let outside = GAIN_ONE - 131077;
    assert_eq!(apply_gain(inside, 32767), 32767);
    assert_eq!(apply_gain(outside, 32767), 32765);
}

#[test]
fn group_gain_can_be_overwritten() {
    let mut mixer: Mixer<BufferSource> = Mixer::new(1, SampleRate(1));
    mixer.set_group_volume(3, vol(2.0));
    mixer.set_group_volume(7, vol(0.5));
    mixer.set_group_volume(3, vol(4.0));

    let source = buffer_source(1, 1, vec![10, 10]);
    let id = mixer.add_sound(3, source);
    mixer.play(id);

    let mut buffer = [0; 4];
    assert_eq!(mixer.write_samples(&mut buffer), 4);
    assert_eq!(buffer, [40, 40, 0, 0]);
}

#[test]
fn combine_gains_multiplies() {
    assert_eq!(combine_gains(vol(0.5), vol(2.0)), GAIN_ONE);
    assert_eq!(combine_gains(vol(2.0), vol(4.0)), vol(8.0));
    assert_eq!(combine_gains(0, vol(4.0)), 0);
}

#[test]
fn lerp_sample_mixes_linearly() {
    assert_eq!(lerp_sample(0, 3, 1, 3), 1);
    assert_eq!(lerp_sample(0, 3, 2, 3), 2);
    assert_eq!(lerp_sample(10, 10, 5, 7), 10);
    // Weight zero returns the first sample exactly.
    assert_eq!(lerp_sample(-7, 32767, 0, 9), -7);
    // Truncation goes toward zero for negative mixes.
    assert_eq!(lerp_sample(-1, -2, 1, 2), -1);
}

#[test]
fn mix_into_adds_scaled_prefix() {
    let mut out = [10, 10, 10, 10];
    let src = [100, -100, 32767, 5];
    mix_into(&mut out, &src, 3, vol(0.5));
    assert_eq!(out, [60, -40, 16393, 10]);
}

#[test]
fn adapt_keeps_matching_source() {
    let s = buffer_source(48000, 2, vec![]);
    let a = adapt_source(s, 2, 48000).unwrap();
    assert!(matches!(a, AdaptedSource::Plain(_)));
    assert_eq!(a.channels(), 2);
    assert_eq!(a.sample_rate(), 48000);
}

#[test]
fn adapt_wraps_rate_mismatch() {
    let s = buffer_source(44100, 2, vec![]);
    let a = adapt_source(s, 2, 48000).unwrap();
    assert!(matches!(a, AdaptedSource::Rate(_)));
    assert_eq!(a.channels(), 2);
    assert_eq!(a.sample_rate(), 48000);
}

#[test]
fn adapt_wraps_mono_channel_mismatch() {
    let s = buffer_source(48000, 1, vec![]);
    let a = adapt_source(s, 2, 48000).unwrap();
    assert!(matches!(a, AdaptedSource::Channels(_)));
    assert_eq!(a.channels(), 2);
    assert_eq!(a.sample_rate(), 48000);

    let s = buffer_source(44100, 1, vec![]);
    let a = adapt_source(s, 2, 48000).unwrap();
    assert!(matches!(a, AdaptedSource::ChannelsOfRate(_)));
    assert_eq!(a.channels(), 2);
    assert_eq!(a.sample_rate(), 48000);
}

#[test]
fn adapt_rejects_incompatible_channels() {
    let s = buffer_source(48000, 3, vec![]);
    assert!(adapt_source(s, 2, 48000).is_err());

    let s = buffer_source(44100, 3, vec![]);
    assert!(adapt_source(s, 2, 48000).is_err());

    // Either side being mono makes any pair convertible.
    let s = buffer_source(48000, 3, vec![]);
    assert!(adapt_source(s, 1, 48000).is_ok());
}

#[test]
fn set_config_refits_sounds_and_keeps_position() {
    let mut mixer: Mixer<AdaptedSource<BufferSource>> = Mixer::new(2, SampleRate(10));

    let source = buffer_source(10, 1, vec![1, 2, 3, 4]);
    let adapted = adapt_source(source, 2, 10).unwrap();
    let id = mixer.add_sound(0, adapted);
    mixer.play(id);
    mixer.mark_to_remove(id, false);

    // Mono upmixed to stereo: each sample appears on both channels.
    let mut buffer = [0; 4];
    assert_eq!(mixer.write_samples(&mut buffer), 4);
    assert_eq!(buffer, [1, 1, 2, 2]);

    // Renegotiate to mono: the sound continues where it left off.
    mixer.set_config(1, SampleRate(10));
    assert_eq!(mixer.channels(), 1);
    assert_eq!(mixer.sample_rate(), 10);
    let mut buffer = [0; 2];
    assert_eq!(mixer.write_samples(&mut buffer), 2);
    assert_eq!(buffer, [3, 4]);
}

#[test]
fn set_config_same_format_is_a_no_op() {
    let mut mixer: Mixer<AdaptedSource<BufferSource>> = Mixer::new(2, SampleRate(48000));
    mixer.set_config(2, SampleRate(48000));
    assert_eq!(mixer.channels(), 2);
    assert_eq!(mixer.sample_rate(), 48000);
    assert_eq!(mixer.sound_count(), 0);
}

#[test]
fn identifiers_are_unique_and_increasing() {
    let mut mixer = Mixer::new(1, SampleRate(1));
    let a = mixer.add_sound(0, buffer_source(1, 1, vec![0]));
    let b = mixer.add_sound(0, buffer_source(1, 1, vec![0]));
    let c = mixer.add_sound(0, buffer_source(1, 1, vec![0]));
    assert!(a < b && b < c);
    assert_eq!(mixer.sound_count(), 3);
}

#[test]
fn next_id_advances() {
    let mut mixer: Mixer<BufferSource> = Mixer::new(1, SampleRate(1));
    let a = mixer.next_id();
    let b = mixer.next_id();
    assert_eq!(b, a + 1);
}
