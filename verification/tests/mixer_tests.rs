use audio_engine::mixer::Mixer;
use audio_engine::{SampleRate, SoundSource, GAIN_ONE};

struct DebugSource {
    i: usize,
    v: i16,
    len: usize,
}

impl DebugSource {
    fn new(v: i16, len: usize) -> Self {
        Self { i: 0, v, len }
    }
}

impl SoundSource for DebugSource {
    // The first four items are the compiled forms of the trait's
    // specification members; an implementation outside the verified crate
    // supplies them as plain functions.
    fn valid(&self) -> bool {
        true
    }

    fn spec_channels(&self) -> u16 {
        1
    }

    fn spec_sample_rate(&self) -> u32 {
        1
    }

    fn lemma_valid_format(&self) {}

    fn channels(&self) -> u16 {
        1
    }

    fn sample_rate(&self) -> u32 {
        1
    }

    fn reset(&mut self) {
        self.i = 0;
    }

    fn write_samples(&mut self, buffer: &mut [i16]) -> usize {
        for (i, o) in buffer.iter_mut().enumerate() {
            *o = self.v;
            self.i += 1;
            if self.i > self.len {
                return i;
            }
        }
        buffer.len()
    }
}

/// The fixed-point gain closest to the given factor.
fn vol(v: f32) -> u64 {
    (v as f64 * 4294967296.0) as u64
}

#[test]
fn start_stopped() {
    let mut mixer = Mixer::new(1, SampleRate(1));

    // create new sound
    let id = mixer.add_sound(0, DebugSource::new(2, 5));

    // sound start in stopped state
    let mut buffer = [0; 10];
    assert_eq!(mixer.write_samples(&mut buffer), 10);
    assert_eq!(buffer, [0; 10]);

    // play the sound
    mixer.play(id);
    assert_eq!(mixer.write_samples(&mut buffer), 10);
    assert_eq!(buffer, [2, 2, 2, 2, 2, 0, 0, 0, 0, 0]);

    // mark to remove is true, sound was removed
    mixer.reset(id);
    mixer.play(id);
    assert_eq!(mixer.write_samples(&mut buffer), 10);
    assert_eq!(buffer, [0; 10]);

    // create new sound
    let id = mixer.add_sound(0, DebugSource::new(2, 5));

    mixer.stop(id);
}

#[test]
fn mark_to_remove_true() {
    let mut mixer = Mixer::new(1, SampleRate(1));

    // create new sound
    let id = mixer.add_sound(0, DebugSource::new(2, 5));

    // stop the sound will remove the sound if marked to remove is true
    mixer.stop(id);

    // mark to remove is true, sound was removed
    mixer.reset(id);
    mixer.play(id);
    let mut buffer = [0; 10];
    assert_eq!(mixer.write_samples(&mut buffer), 10);
    assert_eq!(buffer, [0; 10]);
}

#[test]
fn mark_to_remove_false() {
    let mut mixer = Mixer::new(1, SampleRate(1));

    let id = mixer.add_sound(0, DebugSource::new(2, 5));
    mixer.mark_to_remove(id, false);

    // stop the sound will not remove the sound if marked to remove is false
    mixer.stop(id);

    // sound start in stopped state
    let mut buffer = [0; 10];
    assert_eq!(mixer.write_samples(&mut buffer), 10);
    assert_eq!(buffer, [0; 10]);

    // play the sound
    mixer.play(id);
    assert_eq!(mixer.playing_count(), 1);
    assert_eq!(mixer.write_samples(&mut buffer), 10);
    assert_eq!(buffer, [2, 2, 2, 2, 2, 0, 0, 0, 0, 0]);

    // mark to remove is false
    mixer.play(id);
    buffer = [0; 10];
    assert_eq!(mixer.playing_count(), 1);
    assert_eq!(mixer.write_samples(&mut buffer), 10);
    assert_eq!(buffer, [2, 2, 2, 2, 2, 0, 0, 0, 0, 0]);
}

#[test]
fn volume() {
    let mut mixer = Mixer::new(1, SampleRate(1));

    let id0 = mixer.add_sound(0, DebugSource::new(10, 2));
    let id1 = mixer.add_sound(0, DebugSource::new(10, 4));
    let id2 = mixer.add_sound(0, DebugSource::new(10, 6));

    mixer.set_volume(id0, vol(0.2));
    mixer.set_volume(id1, vol(0.4));
    mixer.set_volume(id2, vol(0.8));

    mixer.play(id0);
    mixer.play(id1);
    mixer.play(id2);

    let mut buffer = [0; 10];
    assert_eq!(mixer.write_samples(&mut buffer), 10);
    assert_eq!(buffer, [14, 14, 12, 12, 8, 8, 0, 0, 0, 0]);
}

#[test]
fn group_volume() {
    #[derive(Clone, Copy)]
    enum Group {
        A,
        B,
    }

    fn gid(g: Group) -> u64 {
        match g {
            Group::A => 0,
            Group::B => 1,
        }
    }

    let mut mixer = Mixer::new(1, SampleRate(1));

    let a0 = mixer.add_sound(gid(Group::A), DebugSource::new(10, 2));
    let a1 = mixer.add_sound(gid(Group::A), DebugSource::new(10, 4));
    let a2 = mixer.add_sound(gid(Group::A), DebugSource::new(10, 6));

    let b0 = mixer.add_sound(gid(Group::B), DebugSource::new(10, 8));
    let b1 = mixer.add_sound(gid(Group::B), DebugSource::new(10, 10));
    let b2 = mixer.add_sound(gid(Group::B), DebugSource::new(10, 12));

    mixer.set_volume(a0, vol(0.2));
    mixer.set_volume(a1, vol(0.4));
    mixer.set_volume(a2, vol(0.8));

    mixer.set_volume(b0, vol(0.2));
    mixer.set_volume(b1, vol(0.4));
    mixer.set_volume(b2, vol(0.8));

    mixer.set_group_volume(gid(Group::A), vol(2.0));
    mixer.set_group_volume(gid(Group::B), vol(4.0));

    assert_eq!(mixer.sound_count(), 6);
    assert_eq!(mixer.playing_count(), 0);

    mixer.play(a0);
    mixer.play(a1);
    mixer.play(a2);

    mixer.play(b0);
    mixer.play(b1);
    mixer.play(b2);

    assert_eq!(mixer.sound_count(), 6);
    assert_eq!(mixer.playing_count(), 6);

    let mut buffer = [0; 10];
    assert_eq!(mixer.write_samples(&mut buffer), 10);
    // 28 + 56
    assert_eq!(buffer, [84, 84, 80, 80, 72, 72, 56, 56, 48, 48]);
    buffer = [0; 10];
    assert_eq!(mixer.write_samples(&mut buffer), 10);
    // 28 + 56
    assert_eq!(buffer, [32, 32, 0, 0, 0, 0, 0, 0, 0, 0]);

    assert_eq!(mixer.sound_count(), 0);
    assert_eq!(mixer.playing_count(), 0);
}

#[test]
fn empty_buffer_touches_nothing() {
    // A zero-length request returns zero and leaves every source where it
    // was: the full stream still comes out afterwards.
    let mut mixer = Mixer::new(1, SampleRate(1));
    let id = mixer.add_sound(0, DebugSource::new(3, 5));
    mixer.play(id);

    let mut empty: [i16; 0] = [];
    assert_eq!(mixer.write_samples(&mut empty), 0);

    let mut buffer = [0; 10];
    assert_eq!(mixer.write_samples(&mut buffer), 10);
    assert_eq!(buffer, [3, 3, 3, 3, 3, 0, 0, 0, 0, 0]);
}

#[test]
fn empty_source_is_end_of_stream() {
    // A source that hands back nothing on its first pull counts as ended at
    // once and is removed.
    let mut mixer = Mixer::new(1, SampleRate(1));
    let id = mixer.add_sound(0, DebugSource::new(2, 0));
    mixer.play(id);

    let mut buffer = [0; 4];
    assert_eq!(mixer.write_samples(&mut buffer), 4);
    assert_eq!(buffer, [0; 4]);
    assert_eq!(mixer.sound_count(), 0);
    assert_eq!(mixer.playing_count(), 0);
}

#[test]
fn empty_looping_source_is_end_of_stream() {
    // Looping does not resurrect a source that produces nothing.
    let mut mixer = Mixer::new(1, SampleRate(1));
    let id = mixer.add_sound(0, DebugSource::new(2, 0));
    mixer.set_loop(id, true);
    mixer.play(id);

    let mut buffer = [0; 4];
    assert_eq!(mixer.write_samples(&mut buffer), 4);
    assert_eq!(buffer, [0; 4]);
    assert_eq!(mixer.playing_count(), 0);
}

#[test]
fn saturating_sum() {
    // Two full-scale sources add up to full scale, not to a wrapped value.
    let mut mixer = Mixer::new(1, SampleRate(1));
    let id0 = mixer.add_sound(0, DebugSource::new(i16::MAX, 4));
    let id1 = mixer.add_sound(0, DebugSource::new(i16::MAX, 4));
    mixer.play(id0);
    mixer.play(id1);

    let mut buffer = [0; 4];
    assert_eq!(mixer.write_samples(&mut buffer), 4);
    assert_eq!(buffer, [i16::MAX; 4]);
}

#[test]
fn near_unity_volume_uses_fast_path() {
    // A volume within 1/i16::MAX of unity leaves samples untouched: the
    // output is identical to the unscaled mix.
    let mut unscaled = Mixer::new(1, SampleRate(1));
    let id = unscaled.add_sound(0, DebugSource::new(12345, 6));
    unscaled.play(id);
    let mut expected = [0; 8];
    unscaled.write_samples(&mut expected);

    let mut nudged = Mixer::new(1, SampleRate(1));
    let id = nudged.add_sound(0, DebugSource::new(12345, 6));
    nudged.set_volume(id, GAIN_ONE + 1);
    nudged.play(id);
    let mut buffer = [0; 8];
    nudged.write_samples(&mut buffer);

    assert_eq!(buffer, expected);
    assert_eq!(buffer[0], 12345);
}

#[test]
fn looping_source_repeats() {
    let mut mixer = Mixer::new(1, SampleRate(1));
    let id = mixer.add_sound(0, DebugSource::new(4, 3));
    mixer.set_loop(id, true);
    mixer.play(id);

    let mut buffer = [0; 8];
    assert_eq!(mixer.write_samples(&mut buffer), 8);
    assert_eq!(buffer, [4; 8]);
    assert_eq!(mixer.sound_count(), 1);
    assert_eq!(mixer.playing_count(), 1);
}

#[test]
fn pause_resumes_position() {
    let mut mixer = Mixer::new(1, SampleRate(1));
    let id = mixer.add_sound(0, DebugSource::new(9, 6));
    mixer.mark_to_remove(id, false);
    mixer.play(id);

    let mut buffer = [0; 4];
    assert_eq!(mixer.write_samples(&mut buffer), 4);
    assert_eq!(buffer, [9; 4]);

    mixer.pause(id);
    buffer = [0; 4];
    assert_eq!(mixer.write_samples(&mut buffer), 4);
    assert_eq!(buffer, [0; 4]);

    mixer.play(id);
    assert_eq!(mixer.write_samples(&mut buffer), 4);
    assert_eq!(buffer, [9, 9, 0, 0]);
}
