use audio_engine::converter::{ChannelConverter, SampleRateConverter};
use audio_engine::{BufferSource, SoundSource};

fn buffer_source(sample_rate: u32, channels: u16, buffer: Vec<i16>) -> BufferSource {
    BufferSource {
        sample_rate,
        channels,
        buffer,
        i: 0,
    }
}

#[test]
fn sample_rate_1_3() {
    let inner = buffer_source(10, 1, vec![0, 3, 6, 9, 12]);
    let mut outer = SampleRateConverter::new(inner, 30);

    let mut output = [0; 3];
    let len = outer.write_samples(&mut output[..]);

    assert_eq!(len, output.len());
    assert_eq!(output, [0, 1, 2]);

    let mut output = [0; 4];

    let len = outer.write_samples(&mut output[..]);
    assert_eq!(len, output.len());
    assert_eq!(output, [3, 4, 5, 6]);

    let len = outer.write_samples(&mut output[..]);
    assert_eq!(len, output.len());
    assert_eq!(output, [7, 8, 9, 10]);

    let len = outer.write_samples(&mut output[..]);
    assert_eq!(len, 2);
    assert_eq!(output[..len], [11, 12]);

    let len = outer.write_samples(&mut output[..]);
    assert_eq!(len, 0);
}

#[test]
fn sample_rate_2_3() {
    let inner = buffer_source(20, 1, vec![0, 3, 6, 9, 12, 15]);
    let mut outer = SampleRateConverter::new(inner, 30);

    let mut output = [0; 3];
    let len = outer.write_samples(&mut output[..]);

    assert_eq!(len, output.len());
    assert_eq!(output, [0, 2, 4]);

    let mut output = [0; 4];

    let len = outer.write_samples(&mut output[..]);
    assert_eq!(len, output.len());
    assert_eq!(output, [6, 8, 10, 12]);

    let len = outer.write_samples(&mut output[..]);
    assert_eq!(len, 1);
    assert_eq!(output[..len], [14]);

    let len = outer.write_samples(&mut output[..]);
    assert_eq!(len, 0);
}

#[test]
fn sample_rate_3_2() {
    let inner = buffer_source(30, 1, vec![0, 2, 4, 6, 8, 10, 12, 14, 16, 18]);
    let mut outer = SampleRateConverter::new(inner, 20);

    let mut output = [0; 2];
    let len = outer.write_samples(&mut output[..]);

    assert_eq!(len, output.len());
    assert_eq!(output, [0, 3]);

    let mut output = [0; 4];

    let len = outer.write_samples(&mut output[..]);
    assert_eq!(len, output.len());
    assert_eq!(output, [6, 9, 12, 15]);

    let len = outer.write_samples(&mut output[..]);
    assert_eq!(len, 1);
    assert_eq!(output[..len], [18]);

    let len = outer.write_samples(&mut output[..]);
    assert_eq!(len, 0);
}

#[test]
fn channels_1_3() {
    let inner = buffer_source(30, 1, vec![-2, -1, 0, 1, 2]);

    let out_channels = 3;

    let mut output = vec![0; 3 * 5];
    let mut outer = ChannelConverter::new(inner, out_channels);

    outer.write_samples(&mut output);

    assert_eq!(output, [-2, -2, -2, -1, -1, -1, 0, 0, 0, 1, 1, 1, 2, 2, 2]);
}

#[test]
fn channels_3_1() {
    let inner = buffer_source(30, 3, vec![1, 2, 3, 4, 5, 6, 7, 8, 9]);

    let mut output = vec![0; 3];
    let mut outer = ChannelConverter::new(inner, 1);

    outer.write_samples(&mut output);

    assert_eq!(output, [2, 5, 8]);
}

#[test]
fn channels_2_2() {
    let inner = buffer_source(30, 2, vec![1, 2, 3, 4, 5, 6, 7, 8, 9]);

    let input = inner.buffer.clone();
    let mut output = vec![0; inner.buffer.len()];
    let mut outer = ChannelConverter::new(inner, 2);
    outer.write_samples(&mut output);
    assert_eq!(output, input);
}

#[test]
fn channels_4_5() {
    let inner = buffer_source(30, 4, vec![1, 2, 3, 4, 5, 6, 7, 8, 9, 10, 11, 12]);
    let mut output = vec![0; inner.buffer.len() / 4 * 5];
    let mut outer = ChannelConverter::new(inner, 5);
    outer.write_samples(&mut output);
    assert_eq!(output, &[2, 2, 2, 2, 2, 6, 6, 6, 6, 6, 10, 10, 10, 10, 10,]);
}

#[test]
fn channels_5_3() {
    let inner = buffer_source(30, 5, vec![1, 2, 3, 4, 5, 6, 7, 8, 9, 10, 11, 12, 13, 14, 15]);
    let mut output = vec![0; inner.buffer.len() / 5 * 3];
    let mut outer = ChannelConverter::new(inner, 3);
    outer.write_samples(&mut output);
    assert_eq!(output, &[3, 3, 3, 8, 8, 8, 13, 13, 13]);

    let inner = buffer_source(30, 5, vec![1, 2, 3, 4, 5, 6, 7, 8, 9, 10, 11, 12, 13, 14, 15]);
    let mut output = vec![0; 3];
    let mut outer = ChannelConverter::new(inner, 3);
    let len = outer.write_samples(&mut output);
    assert_eq!(output, &[3, 3, 3]);
    assert_eq!(len, 3);
    let len = outer.write_samples(&mut output);
    assert_eq!(output, &[8, 8, 8]);
    assert_eq!(len, 3);
    let len = outer.write_samples(&mut output);
    assert_eq!(output, &[13, 13, 13]);
    assert_eq!(len, 3);
    let len = outer.write_samples(&mut output);
    assert_eq!(&output[..len], &[]);
    assert_eq!(len, 0);
}

#[test]
fn sample_rate_equal_passthrough() {
    // An equal-rate conversion hands the inner stream through untouched.
    let inner = buffer_source(30, 1, vec![5, -7, 9, 0, 3]);
    let mut outer = SampleRateConverter::new(inner, 30);

    let mut output = [0; 5];
    let len = outer.write_samples(&mut output[..]);
    assert_eq!(len, 5);
    assert_eq!(output, [5, -7, 9, 0, 3]);
    assert_eq!(outer.sample_rate(), 30);
    assert_eq!(outer.channels(), 1);
}

#[test]
fn sample_rate_converter_reports_format() {
    let inner = buffer_source(44100, 2, vec![0, 0, 0, 0]);
    let outer = SampleRateConverter::new(inner, 48000);
    assert_eq!(outer.sample_rate(), 48000);
    assert_eq!(outer.channels(), 2);
}

#[test]
fn channel_converter_reports_format() {
    let inner = buffer_source(44100, 2, vec![0, 0, 0, 0]);
    let outer = ChannelConverter::new(inner, 5);
    assert_eq!(outer.channels(), 5);
    assert_eq!(outer.sample_rate(), 44100);
}

#[test]
fn mono_roundtrip_is_identity() {
    // Replicating mono up to three channels and averaging back down returns
    // the original samples exactly.
    let samples: Vec<i16> = vec![-32768, -1, 0, 1, 2, 17, 32767];
    let inner = buffer_source(30, 1, samples.clone());
    let up = ChannelConverter::new(inner, 3);
    let mut down = ChannelConverter::new(up, 1);

    let mut output = vec![0; samples.len()];
    let len = down.write_samples(&mut output);
    assert_eq!(len, samples.len());
    assert_eq!(output, samples);
}

#[test]
fn sample_rate_converter_stereo() {
    // Interleaved frames keep their channel assignment through resampling.
    let inner = buffer_source(10, 2, vec![0, 100, 6, 106, 12, 112]);
    let mut outer = SampleRateConverter::new(inner, 30);

    let mut output = [0; 6];
    let len = outer.write_samples(&mut output[..]);
    assert_eq!(len, 6);
    assert_eq!(output, [0, 100, 2, 102, 4, 104]);
}
