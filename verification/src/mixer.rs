//! The mixer: owns every registered sound, tracks which of them are playing,
//! and sums the playing ones into a single output buffer with per-sound and
//! per-group gain and saturating addition.
//!
//! The entries are kept partitioned: indices below `playing` are the sounds
//! currently producing output, the rest are paused or stopped. All state
//! transitions move entries across that boundary with single swaps.

use vstd::prelude::*;
use crate::{Gain, SampleRate, SoundId, SoundSource, GAIN_ONE};
use crate::gain::{applied_gain, combine_gains, sat_add_spec, sat_add_i16, apply_gain};

verus! {

/// One registered sound with its mixing state.
pub struct SoundEntry<S> {
    /// The identifier the mixer handed out at registration.
    pub id: SoundId,
    /// The producer of this sound's samples.
    pub source: S,
    /// The per-sound gain; `GAIN_ONE` by default.
    pub volume: Gain,
    /// The group whose gain multiplies this sound's own.
    pub group: u64,
    /// Whether the sound restarts when it reaches its end.
    pub looping: bool,
    /// Whether the sound is discarded once it reaches its end.
    pub remove_on_end: bool,
}

/// A sequence with the values at `i` and `j` exchanged.
pub open spec fn seq_swapped<A>(s: Seq<A>, i: int, j: int) -> Seq<A>
    recommends
        0 <= i < s.len(),
        0 <= j < s.len(),
{
    s.update(i, s[j]).update(j, s[i])
}

/// A sequence with the value at `i` replaced by the last value and the last
/// slot removed, the way `Vec::swap_remove` rearranges.
pub open spec fn seq_swap_removed<A>(s: Seq<A>, i: int) -> Seq<A>
    recommends
        0 <= i < s.len(),
{
    s.update(i, s.last()).drop_last()
}

/// The gain stored for group `g`, or unity if the group has no entry.
pub open spec fn lookup_gain(s: Seq<(u64, Gain)>, g: u64) -> Gain
    decreases s.len(),
{
    if s.len() == 0 {
        GAIN_ONE
    } else if s.last().0 == g {
        s.last().1
    } else {
        lookup_gain(s.drop_last(), g)
    }
}

/// When the keys are unique, the stored pair wins the lookup.
proof fn lemma_lookup_found(s: Seq<(u64, Gain)>, g: u64, i: int)
    requires
        0 <= i < s.len(),
        s[i].0 == g,
        forall|x: int, y: int| 0 <= x < y < s.len() ==> s[x].0 != s[y].0,
    ensures
        lookup_gain(s, g) == s[i].1,
    decreases s.len(),
{
    if i == s.len() - 1 {
    } else {
        assert(s.last().0 != g);
        assert(s.drop_last()[i] == s[i]);
        lemma_lookup_found(s.drop_last(), g, i);
    }
}

/// A key that no pair holds looks up to unity gain.
proof fn lemma_lookup_absent(s: Seq<(u64, Gain)>, g: u64)
    requires
        forall|x: int| 0 <= x < s.len() ==> (#[trigger] s[x]).0 != g,
    ensures
        lookup_gain(s, g) == GAIN_ONE,
    decreases s.len(),
{
    if s.len() > 0 {
        assert(s.drop_last().len() == s.len() - 1);
        assert(forall|x: int| 0 <= x < s.drop_last().len()
            ==> (#[trigger] s.drop_last()[x]).0 != g);
        lemma_lookup_absent(s.drop_last(), g);
    }
}

/// Keep track of each sound, and mix their outputs together.
pub struct Mixer<S: SoundSource> {
    sounds: Vec<SoundEntry<S>>,
    playing: usize,
    channels: u16,
    sample_rate: SampleRate,
    group_volumes: Vec<(u64, Gain)>,
    id_counter: u64,
}

impl<S: SoundSource> Mixer<S> {
    /// The registered sounds, in their internal order: the partition's
    /// playing half first.
    pub closed spec fn entries(&self) -> Seq<SoundEntry<S>> {
        self.sounds@
    }

    /// The partition index: entries below it are playing.
    pub closed spec fn playing_part(&self) -> int {
        self.playing as int
    }

    /// The gain of a group; unity for groups never set.
    pub closed spec fn group_gain(&self, g: u64) -> Gain {
        lookup_gain(self.group_volumes@, g)
    }

    /// The identifier the next registered sound will receive.
    pub closed spec fn counter(&self) -> u64 {
        self.id_counter
    }

    /// Well-formedness: the partition index stays within the entries, every
    /// source is valid and matches the mixer's output format, identifiers
    /// are unique and below the counter, and group keys are unique.
    pub closed spec fn wf(&self) -> bool {
        &&& self.playing <= self.sounds@.len()
        &&& self.channels >= 1
        &&& self.sample_rate.0 >= 1
        &&& forall|i: int| 0 <= i < self.sounds@.len() ==> {
            &&& (#[trigger] self.sounds@[i]).source.valid()
            &&& self.sounds@[i].source.spec_channels() == self.channels
            &&& self.sounds@[i].source.spec_sample_rate() == self.sample_rate.0
            &&& self.sounds@[i].id < self.id_counter
        }
        &&& forall|i: int, j: int| 0 <= i < j < self.sounds@.len()
            ==> self.sounds@[i].id != self.sounds@[j].id
        &&& forall|i: int, j: int| 0 <= i < j < self.group_volumes@.len()
            ==> self.group_volumes@[i].0 != self.group_volumes@[j].0
    }

    /// A well-formed mixer's partition index never exceeds the number of
    /// entries, and no two entries share an identifier.
    pub proof fn lemma_wf_invariants(&self)
        requires
            self.wf(),
        ensures
            0 <= self.playing_part() <= self.entries().len(),
            forall|i: int, j: int| 0 <= i < j < self.entries().len()
                ==> self.entries()[i].id != self.entries()[j].id,
    {
    }

    /// Create a new mixer that outputs the given number of channels at the
    /// given sample rate.
    pub fn new(channels: u16, sample_rate: SampleRate) -> (r: Self)
        requires
            channels >= 1,
            sample_rate.0 >= 1,
        ensures
            r.wf(),
            r.entries() =~= Seq::<SoundEntry<S>>::empty(),
            r.playing_part() == 0,
            r.spec_channels() == channels,
            r.spec_sample_rate() == sample_rate.0,
            r.counter() == 0,
            forall|g: u64| r.group_gain(g) == GAIN_ONE,
    {
        Self {
            sounds: Vec::new(),
            playing: 0,
            channels,
            sample_rate,
            group_volumes: Vec::new(),
            id_counter: 0,
        }
    }

    /// The identifier the next registered sound will receive; also the
    /// number of identifiers handed out so far.
    pub fn next_sound_id(&self) -> (id: SoundId)
        ensures
            id == self.counter(),
    {
        self.id_counter
    }

    /// Allocate the next sound identifier; each is handed out once.
    pub fn next_id(&mut self) -> (id: SoundId)
        requires
            old(self).counter() < u64::MAX,
        ensures
            id == old(self).counter(),
            final(self).counter() == old(self).counter() + 1,
            final(self).entries() == old(self).entries(),
            final(self).playing_part() == old(self).playing_part(),
            final(self).spec_channels() == old(self).spec_channels(),
            final(self).spec_sample_rate() == old(self).spec_sample_rate(),
            forall|g: u64| final(self).group_gain(g) == old(self).group_gain(g),
            old(self).wf() ==> final(self).wf(),
    {
        let id = self.id_counter;
        self.id_counter = self.id_counter + 1;
        id
    }

    /// Add a new sound to the mixer and return its globally unique
    /// identifier. The sound starts out stopped, with unity volume, not
    /// looping, and marked to be removed when it ends.
    ///
    /// The source must already produce the mixer's output format; the engine
    /// wraps mismatched sources in converters before registration.
    pub fn add_sound(&mut self, group: u64, sound: S) -> (id: SoundId)
        requires
            old(self).wf(),
            sound.valid(),
            sound.spec_channels() == old(self).spec_channels(),
            sound.spec_sample_rate() == old(self).spec_sample_rate(),
            old(self).counter() < u64::MAX,
        ensures
            final(self).wf(),
            id == old(self).counter(),
            final(self).counter() == old(self).counter() + 1,
            final(self).entries() == old(self).entries().push(SoundEntry {
                id,
                source: sound,
                volume: GAIN_ONE,
                group,
                looping: false,
                remove_on_end: true,
            }),
            final(self).playing_part() == old(self).playing_part(),
            final(self).spec_channels() == old(self).spec_channels(),
            final(self).spec_sample_rate() == old(self).spec_sample_rate(),
            forall|g: u64| final(self).group_gain(g) == old(self).group_gain(g),
    {
        let id = self.next_id();
        let entry = SoundEntry {
            id,
            source: sound,
            volume: GAIN_ONE,
            group,
            looping: false,
            remove_on_end: true,
        };
        self.sounds.push(entry);
        id
    }

    /// Find the index of the entry holding `id` within `[lo, hi)`.
    fn index_of(sounds: &Vec<SoundEntry<S>>, id: SoundId, lo: usize, hi: usize)
        -> (r: Option<usize>)
        requires
            lo <= hi <= sounds@.len(),
        ensures
            match r {
                Some(i) => lo <= i < hi && sounds@[i as int].id == id,
                None => forall|k: int| lo <= k < hi ==> (#[trigger] sounds@[k]).id != id,
            },
    {
        let mut k = lo;
        while k < hi
            invariant
                lo <= k <= hi <= sounds@.len(),
                forall|m: int| lo <= m < k ==> (#[trigger] sounds@[m]).id != id,
            decreases hi - k,
        {
            if sounds[k].id == id {
                return Some(k);
            }
            k += 1;
        }
        None
    }

    /// Start playing the sound with the given identifier.
    ///
    /// A paused or stopped sound is swapped into the playing half of the
    /// partition; anything else, including an unknown identifier, is left
    /// alone.
    pub fn play(&mut self, id: SoundId)
        requires
            old(self).wf(),
        ensures
            final(self).wf(),
            final(self).spec_channels() == old(self).spec_channels(),
            final(self).spec_sample_rate() == old(self).spec_sample_rate(),
            final(self).counter() == old(self).counter(),
            forall|g: u64| final(self).group_gain(g) == old(self).group_gain(g),
            forall|j: int| old(self).playing_part() <= j < old(self).entries().len()
                && (#[trigger] old(self).entries()[j]).id == id ==> {
                &&& final(self).entries() == seq_swapped(old(self).entries(),
                    old(self).playing_part(), j)
                &&& final(self).playing_part() == old(self).playing_part() + 1
            },
            (forall|j: int| old(self).playing_part() <= j < old(self).entries().len()
                ==> (#[trigger] old(self).entries()[j]).id != id) ==> {
                &&& final(self).entries() == old(self).entries()
                &&& final(self).playing_part() == old(self).playing_part()
            },
    {
        match Self::index_of(&self.sounds, id, self.playing, self.sounds.len()) {
            Some(i) => {
                crate::vec_swap(&mut self.sounds, self.playing, i);
                self.playing = self.playing + 1;
            },
            None => {},
        }
    }

    /// Pause the sound with the given identifier.
    ///
    /// A playing sound is swapped out of the playing half of the partition
    /// and keeps its position in the stream, so a later `play` resumes where
    /// it paused. Anything else is left alone.
    pub fn pause(&mut self, id: SoundId)
        requires
            old(self).wf(),
        ensures
            final(self).wf(),
            final(self).spec_channels() == old(self).spec_channels(),
            final(self).spec_sample_rate() == old(self).spec_sample_rate(),
            final(self).counter() == old(self).counter(),
            forall|g: u64| final(self).group_gain(g) == old(self).group_gain(g),
            forall|j: int| 0 <= j < old(self).playing_part()
                && (#[trigger] old(self).entries()[j]).id == id ==> {
                &&& final(self).entries() == seq_swapped(old(self).entries(),
                    old(self).playing_part() - 1, j)
                &&& final(self).playing_part() == old(self).playing_part() - 1
            },
            (forall|j: int| 0 <= j < old(self).playing_part()
                ==> (#[trigger] old(self).entries()[j]).id != id) ==> {
                &&& final(self).entries() == old(self).entries()
                &&& final(self).playing_part() == old(self).playing_part()
            },
    {
        match Self::index_of(&self.sounds, id, 0, self.playing) {
            Some(i) => {
                self.playing = self.playing - 1;
                crate::vec_swap(&mut self.sounds, self.playing, i);
            },
            None => {},
        }
    }

    /// Stop the sound with the given identifier.
    ///
    /// A sound marked to be removed is discarded; any other sound is reset
    /// to its start and moved to the paused half of the partition, so a
    /// later `play` restarts it from the beginning. An unknown identifier is
    /// a no-op.
    pub fn stop(&mut self, id: SoundId)
        requires
            old(self).wf(),
        ensures
            final(self).wf(),
            final(self).spec_channels() == old(self).spec_channels(),
            final(self).spec_sample_rate() == old(self).spec_sample_rate(),
            final(self).counter() == old(self).counter(),
            forall|g: u64| final(self).group_gain(g) == old(self).group_gain(g),
            forall|j: int| 0 <= j < old(self).entries().len()
                && (#[trigger] old(self).entries()[j]).id == id
                && old(self).entries()[j].remove_on_end ==> {
                let removed = seq_swap_removed(old(self).entries(), j);
                if j < old(self).playing_part() {
                    &&& final(self).playing_part() == old(self).playing_part() - 1
                    &&& if old(self).playing_part() - 1 < removed.len() {
                        final(self).entries() == seq_swapped(removed,
                            old(self).playing_part() - 1, j)
                    } else {
                        final(self).entries() == removed
                    }
                } else {
                    &&& final(self).entries() == removed
                    &&& final(self).playing_part() == old(self).playing_part()
                }
            },
            forall|j: int| 0 <= j < old(self).entries().len()
                && (#[trigger] old(self).entries()[j]).id == id
                && !old(self).entries()[j].remove_on_end ==> {
                &&& final(self).entries().len() == old(self).entries().len()
                &&& (exists|e2: SoundEntry<S>| entry_after_reset(old(self).entries()[j], e2)
                    && {
                    let reset_seq = old(self).entries().update(j, e2);
                    if j < old(self).playing_part() {
                        final(self).entries() == seq_swapped(reset_seq,
                            old(self).playing_part() - 1, j)
                            && final(self).playing_part() == old(self).playing_part() - 1
                    } else {
                        final(self).entries() == reset_seq
                            && final(self).playing_part() == old(self).playing_part()
                    }
                })
            },
            (forall|j: int| 0 <= j < old(self).entries().len()
                ==> (#[trigger] old(self).entries()[j]).id != id) ==> {
                &&& final(self).entries() == old(self).entries()
                &&& final(self).playing_part() == old(self).playing_part()
            },
    {
        match Self::index_of(&self.sounds, id, 0, self.sounds.len()) {
            Some(i) => {
                let was_playing = i < self.playing;
                if self.sounds[i].remove_on_end {
                    let _ = self.sounds.swap_remove(i);
                    if was_playing {
                        self.playing = self.playing - 1;
                        if self.playing < self.sounds.len() {
                            crate::vec_swap(&mut self.sounds, self.playing, i);
                        }
                    }
                } else {
                    let entry = &mut self.sounds[i];
                    entry.source.reset();
                    proof {
                        assert(entry_after_reset(old(self).entries()[i as int], *entry));
                    }
                    if was_playing {
                        self.playing = self.playing - 1;
                        crate::vec_swap(&mut self.sounds, self.playing, i);
                    }
                }
            },
            None => {},
        }
    }

    /// Reset the sound with the given identifier to its start, whether it is
    /// playing or not; its partition membership does not change.
    pub fn reset(&mut self, id: SoundId)
        requires
            old(self).wf(),
        ensures
            final(self).wf(),
            final(self).spec_channels() == old(self).spec_channels(),
            final(self).spec_sample_rate() == old(self).spec_sample_rate(),
            final(self).counter() == old(self).counter(),
            final(self).playing_part() == old(self).playing_part(),
            forall|g: u64| final(self).group_gain(g) == old(self).group_gain(g),
            forall|j: int| 0 <= j < old(self).entries().len()
                && (#[trigger] old(self).entries()[j]).id == id
                ==> exists|e2: SoundEntry<S>| entry_after_reset(old(self).entries()[j], e2)
                    && final(self).entries() == old(self).entries().update(j, e2),
            (forall|j: int| 0 <= j < old(self).entries().len()
                ==> (#[trigger] old(self).entries()[j]).id != id)
                ==> final(self).entries() == old(self).entries(),
    {
        match Self::index_of(&self.sounds, id, 0, self.sounds.len()) {
            Some(i) => {
                let entry = &mut self.sounds[i];
                entry.source.reset();
                proof {
                    assert(entry_after_reset(old(self).entries()[i as int], *entry));
                }
            },
            None => {},
        }
    }

    /// Set whether the sound with the given identifier repeats every time it
    /// reaches its end.
    pub fn set_loop(&mut self, id: SoundId, looping: bool)
        requires
            old(self).wf(),
        ensures
            final(self).wf(),
            final(self).spec_channels() == old(self).spec_channels(),
            final(self).spec_sample_rate() == old(self).spec_sample_rate(),
            final(self).counter() == old(self).counter(),
            final(self).playing_part() == old(self).playing_part(),
            forall|g: u64| final(self).group_gain(g) == old(self).group_gain(g),
            forall|j: int| 0 <= j < old(self).entries().len()
                && (#[trigger] old(self).entries()[j]).id == id
                ==> final(self).entries() == old(self).entries().update(j, SoundEntry {
                    looping,
                    ..old(self).entries()[j]
                }),
            (forall|j: int| 0 <= j < old(self).entries().len()
                ==> (#[trigger] old(self).entries()[j]).id != id)
                ==> final(self).entries() == old(self).entries(),
    {
        match Self::index_of(&self.sounds, id, 0, self.sounds.len()) {
            Some(i) => {
                self.sounds[i].looping = looping;
            },
            None => {},
        }
    }

    /// Set the gain multiplied into every sample of the sound with the given
    /// identifier.
    pub fn set_volume(&mut self, id: SoundId, volume: Gain)
        requires
            old(self).wf(),
        ensures
            final(self).wf(),
            final(self).spec_channels() == old(self).spec_channels(),
            final(self).spec_sample_rate() == old(self).spec_sample_rate(),
            final(self).counter() == old(self).counter(),
            final(self).playing_part() == old(self).playing_part(),
            forall|g: u64| final(self).group_gain(g) == old(self).group_gain(g),
            forall|j: int| 0 <= j < old(self).entries().len()
                && (#[trigger] old(self).entries()[j]).id == id
                ==> final(self).entries() == old(self).entries().update(j, SoundEntry {
                    volume,
                    ..old(self).entries()[j]
                }),
            (forall|j: int| 0 <= j < old(self).entries().len()
                ==> (#[trigger] old(self).entries()[j]).id != id)
                ==> final(self).entries() == old(self).entries(),
    {
        match Self::index_of(&self.sounds, id, 0, self.sounds.len()) {
            Some(i) => {
                self.sounds[i].volume = volume;
            },
            None => {},
        }
    }

    /// Mark whether the sound with the given identifier is removed once it
    /// reaches its end. While false, a finished sound merely moves to the
    /// paused half and can be reset and played again.
    pub fn mark_to_remove(&mut self, id: SoundId, remove: bool)
        requires
            old(self).wf(),
        ensures
            final(self).wf(),
            final(self).spec_channels() == old(self).spec_channels(),
            final(self).spec_sample_rate() == old(self).spec_sample_rate(),
            final(self).counter() == old(self).counter(),
            final(self).playing_part() == old(self).playing_part(),
            forall|g: u64| final(self).group_gain(g) == old(self).group_gain(g),
            forall|j: int| 0 <= j < old(self).entries().len()
                && (#[trigger] old(self).entries()[j]).id == id
                ==> final(self).entries() == old(self).entries().update(j, SoundEntry {
                    remove_on_end: remove,
                    ..old(self).entries()[j]
                }),
            (forall|j: int| 0 <= j < old(self).entries().len()
                ==> (#[trigger] old(self).entries()[j]).id != id)
                ==> final(self).entries() == old(self).entries(),
    {
        match Self::index_of(&self.sounds, id, 0, self.sounds.len()) {
            Some(i) => {
                self.sounds[i].remove_on_end = remove;
            },
            None => {},
        }
    }

    /// Set the gain of a group: every sound in the group has its own volume
    /// multiplied by it. Overwrites the group's previous gain, if any.
    pub fn set_group_volume(&mut self, group: u64, volume: Gain)
        requires
            old(self).wf(),
        ensures
            final(self).wf(),
            final(self).spec_channels() == old(self).spec_channels(),
            final(self).spec_sample_rate() == old(self).spec_sample_rate(),
            final(self).counter() == old(self).counter(),
            final(self).playing_part() == old(self).playing_part(),
            final(self).entries() == old(self).entries(),
            final(self).group_gain(group) == volume,
            forall|g: u64| g != group
                ==> final(self).group_gain(g) == old(self).group_gain(g),
    {
        let n = self.group_volumes.len();
        let mut k: usize = 0;
        while k < n
            invariant
                old(self).wf(),
                k <= n,
                n == self.group_volumes@.len(),
                *self == *old(self),
                forall|m: int| 0 <= m < k ==> (#[trigger] self.group_volumes@[m]).0 != group,
            decreases n - k,
        {
            if self.group_volumes[k].0 == group {
                self.group_volumes[k] = (group, volume);
                proof {
                    lemma_lookup_found(self.group_volumes@, group, k as int);
                    assert forall|g: u64| g != group implies lookup_gain(
                        self.group_volumes@, g) == lookup_gain(old(self).group_volumes@, g)
                    by {
                        lemma_lookup_update_other(old(self).group_volumes@, k as int,
                            (group, volume), g);
                    }
                }
                return;
            }
            k += 1;
        }
        self.group_volumes.push((group, volume));
        proof {
            lemma_lookup_found(self.group_volumes@, group,
                self.group_volumes@.len() - 1);
            assert forall|g: u64| g != group implies lookup_gain(self.group_volumes@, g)
                == lookup_gain(old(self).group_volumes@, g) by {
                assert(self.group_volumes@.drop_last() == old(self).group_volumes@);
            }
        }
    }

    /// The number of sounds in the mixer, the stopped ones included.
    pub fn sound_count(&self) -> (n: usize)
        ensures
            n == self.entries().len(),
    {
        self.sounds.len()
    }

    /// The number of sounds currently playing.
    pub fn playing_count(&self) -> (n: usize)
        ensures
            n == self.playing_part(),
    {
        self.playing
    }
}

/// How a reset leaves an entry: every mixing field kept, the source still
/// valid and in the same format, restarted from its beginning.
pub open spec fn entry_after_reset<S: SoundSource>(e1: SoundEntry<S>, e2: SoundEntry<S>)
    -> bool {
    &&& e2.id == e1.id
    &&& e2.volume == e1.volume
    &&& e2.group == e1.group
    &&& e2.looping == e1.looping
    &&& e2.remove_on_end == e1.remove_on_end
    &&& e2.source.valid()
    &&& e2.source.spec_channels() == e1.source.spec_channels()
    &&& e2.source.spec_sample_rate() == e1.source.spec_sample_rate()
}

impl<S: SoundSource> SoundEntry<S> {
    /// Pull samples from this entry's source until the buffer is full or the
    /// source ends. A looping source is restarted and pulled again; any
    /// source reaching its end is reset, so a kept entry replays from its
    /// start. A source that hands back nothing counts as ended even when
    /// looping.
    fn pull(&mut self, scratch: &mut [i16]) -> (len: usize)
        requires
            old(self).source.valid(),
            old(scratch)@.len() as int % (old(self).source.spec_channels() as int) == 0,
        ensures
            final(self).source.valid(),
            final(self).source.spec_channels() == old(self).source.spec_channels(),
            final(self).source.spec_sample_rate() == old(self).source.spec_sample_rate(),
            final(self).id == old(self).id,
            final(self).volume == old(self).volume,
            final(self).group == old(self).group,
            final(self).looping == old(self).looping,
            final(self).remove_on_end == old(self).remove_on_end,
            len <= old(scratch)@.len(),
            len as int % (old(self).source.spec_channels() as int) == 0,
            final(scratch)@.len() == old(scratch)@.len(),
    {
        proof {
            self.source.lemma_valid_format();
            vstd::arithmetic::div_mod::lemma_small_mod(0nat,
                self.source.spec_channels() as nat);
        }
        let total = scratch.len();
        let mut len: usize = 0;
        let mut done = false;
        while !done
            invariant
                len <= total,
                total == scratch.len(),
                scratch@.len() == old(scratch)@.len(),
                old(self).source.spec_channels() >= 1,
                total as int % (old(self).source.spec_channels() as int) == 0,
                len as int % (old(self).source.spec_channels() as int) == 0,
                self.source.valid(),
                self.source.spec_channels() == old(self).source.spec_channels(),
                self.source.spec_sample_rate() == old(self).source.spec_sample_rate(),
                self.id == old(self).id,
                self.volume == old(self).volume,
                self.group == old(self).group,
                self.looping == old(self).looping,
                self.remove_on_end == old(self).remove_on_end,
            decreases total - len + (if done { 0int } else { 1int }),
        {
            proof {
                crate::lemma_multiple_sub(total as int, len as int,
                    old(self).source.spec_channels() as int);
            }
            let (_, tail) = scratch.split_at_mut(len);
            let n = self.source.write_samples(tail);
            proof {
                crate::lemma_multiple_add(len as int, n as int,
                    old(self).source.spec_channels() as int);
            }
            len = len + n;
            if len < total {
                self.source.reset();
                if !(self.looping && n > 0) {
                    done = true;
                }
            } else {
                done = true;
            }
        }
        len
    }
}

/// Fill the buffer with silence.
fn zero_fill(buf: &mut [i16])
    ensures
        final(buf)@.len() == old(buf)@.len(),
        forall|i: int| 0 <= i < final(buf)@.len() ==> final(buf)@[i] == 0i16,
{
    let n = buf.len();
    let mut k: usize = 0;
    while k < n
        invariant
            k <= n,
            n == buf.len(),
            buf@.len() == old(buf)@.len(),
            forall|i: int| 0 <= i < k ==> buf@[i] == 0i16,
        decreases n - k,
    {
        buf[k] = 0;
        k += 1;
    }
}

/// A freshly allocated buffer of `n` silent samples.
fn zeroed(n: usize) -> (v: Vec<i16>)
    ensures
        v@.len() == n,
{
    let mut v: Vec<i16> = Vec::new();
    let mut k: usize = 0;
    while k < n
        invariant
            k <= n,
            v@.len() == k,
        decreases n - k,
    {
        v.push(0);
        k += 1;
    }
    v
}

/// Add the first `len` samples of `src`, scaled by `gain`, into `out` with
/// saturating addition; samples past `len` are untouched.
pub fn mix_into(out: &mut [i16], src: &[i16], len: usize, gain: Gain)
    requires
        len <= old(out)@.len(),
        len <= src@.len(),
    ensures
        final(out)@.len() == old(out)@.len(),
        forall|i: int| 0 <= i < len ==> final(out)@[i] as int == sat_add_spec(
            old(out)@[i] as int, applied_gain(gain, src@[i] as int)),
        forall|i: int| len <= i < old(out)@.len() ==> final(out)@[i] == old(out)@[i],
{
    let mut k: usize = 0;
    while k < len
        invariant
            k <= len,
            len <= out@.len(),
            len <= src@.len(),
            out@.len() == old(out)@.len(),
            forall|i: int| 0 <= i < k ==> out@[i] as int == sat_add_spec(
                old(out)@[i] as int, applied_gain(gain, src@[i] as int)),
            forall|i: int| k <= i < out@.len() ==> out@[i] == old(out)@[i],
        decreases len - k,
    {
        let scaled = apply_gain(gain, src[k]);
        let mixed = sat_add_i16(out[k], scaled);
        out[k] = mixed;
        k += 1;
    }
}

/// Every entry of `cur` carries the mixing settings (identifier, volume,
/// group and flags) of some entry of `pre`: mixing may drop and reorder
/// entries and advance their sources, but invents none and alters no
/// settings.
/// Some entry of `pre` carries the same mixing settings as `e`.
pub open spec fn entry_drawn_from<S: SoundSource>(pre: Seq<SoundEntry<S>>,
    e: SoundEntry<S>) -> bool {
    exists|i: int| 0 <= i < pre.len()
        && crate::engine::entry_same_settings(#[trigger] pre[i], e)
}

/// Every entry of `cur` carries the mixing settings (identifier, volume,
/// group and flags) of some entry of `pre`: mixing may drop and reorder
/// entries and advance their sources, but invents none and alters no
/// settings.
pub open spec fn entries_drawn_from<S: SoundSource>(pre: Seq<SoundEntry<S>>,
    cur: Seq<SoundEntry<S>>) -> bool {
    forall|j: int| 0 <= j < cur.len() ==> entry_drawn_from(pre, #[trigger] cur[j])
}

proof fn lemma_drawn_from_refl<S: SoundSource>(a: Seq<SoundEntry<S>>)
    ensures
        entries_drawn_from(a, a),
{
    assert forall|j: int| 0 <= j < a.len() implies entry_drawn_from(a,
        #[trigger] a[j]) by {
        assert(crate::engine::entry_same_settings(a[j], a[j]));
    }
}

proof fn lemma_drawn_from_trans<S: SoundSource>(a: Seq<SoundEntry<S>>,
    b: Seq<SoundEntry<S>>, c: Seq<SoundEntry<S>>)
    requires
        entries_drawn_from(a, b),
        entries_drawn_from(b, c),
    ensures
        entries_drawn_from(a, c),
{
    assert forall|j: int| 0 <= j < c.len() implies entry_drawn_from(a,
        #[trigger] c[j]) by {
        assert(entry_drawn_from(b, c[j]));
        let ib = choose|i: int| 0 <= i < b.len()
            && crate::engine::entry_same_settings(#[trigger] b[i], c[j]);
        assert(entry_drawn_from(a, b[ib]));
        let ia = choose|i: int| 0 <= i < a.len()
            && crate::engine::entry_same_settings(#[trigger] a[i], b[ib]);
        assert(crate::engine::entry_same_settings(a[ia], c[j]));
    }
}

impl<S: SoundSource> Mixer<S> {
    /// Mix every playing sound into `buffer` and return `buffer.len()`: the
    /// mixer itself never reports an end of stream.
    ///
    /// With no playing sounds the buffer is zeroed. Each playing sound is
    /// pulled, scaled by its volume times its group's gain, and added in
    /// with saturating addition. A sound that ends during the call loops,
    /// is removed, or moves to the paused half, by its flags.
    pub fn write_samples(&mut self, buffer: &mut [i16]) -> (n: usize)
        requires
            old(self).wf(),
            old(buffer)@.len() as int % (old(self).spec_channels() as int) == 0,
        ensures
            n == old(buffer)@.len(),
            final(buffer)@.len() == old(buffer)@.len(),
            final(self).wf(),
            final(self).spec_channels() == old(self).spec_channels(),
            final(self).spec_sample_rate() == old(self).spec_sample_rate(),
            final(self).counter() == old(self).counter(),
            forall|g: u64| final(self).group_gain(g) == old(self).group_gain(g),
            final(self).playing_part() <= old(self).playing_part(),
            final(self).entries().len() <= old(self).entries().len(),
            entries_drawn_from(old(self).entries(), final(self).entries()),
            old(buffer)@.len() == 0 ==> *final(self) == *old(self),
            old(self).playing_part() == 0 ==> *final(self) == *old(self)
                && (forall|i: int| 0 <= i < final(buffer)@.len()
                    ==> final(buffer)@[i] == 0i16),
    {
        proof {
            lemma_drawn_from_refl(self.sounds@);
        }
        if buffer.len() == 0 {
            return 0;
        }
        if self.playing == 0 {
            zero_fill(buffer);
            return buffer.len();
        }
        let total = buffer.len();
        let mut scratch = zeroed(total);
        let mut s: usize = 0;
        while s < self.playing
            invariant
                self.wf(),
                s <= self.playing,
                total == buffer.len(),
                total == scratch.len(),
                buffer@.len() == old(buffer)@.len(),
                total as int % (self.spec_channels() as int) == 0,
                self.spec_channels() == old(self).spec_channels(),
                self.spec_sample_rate() == old(self).spec_sample_rate(),
                self.counter() == old(self).counter(),
                forall|g: u64| self.group_gain(g) == old(self).group_gain(g),
                self.playing_part() <= old(self).playing_part(),
                self.entries().len() <= old(self).entries().len(),
                entries_drawn_from(old(self).sounds@, self.sounds@),
            decreases self.playing - s,
        {
            let ghost pre = *self;
            let scratch_slice = scratch.as_mut_slice();
            let entry = &mut self.sounds[s];
            let len = entry.pull(scratch_slice);
            let vol = entry.volume;
            let grp = entry.group;
            let rem = entry.remove_on_end;
            proof {
                assert(self.sounds@ == pre.sounds@.update(s as int, self.sounds@[s as int]));
                assert forall|i: int, j: int| 0 <= i < j < self.sounds@.len()
                    implies self.sounds@[i].id != self.sounds@[j].id by {
                    assert(pre.sounds@[i].id != pre.sounds@[j].id);
                }
                assert forall|j: int| 0 <= j < self.sounds@.len()
                    implies entry_drawn_from(pre.sounds@, #[trigger] self.sounds@[j]) by {
                    assert(crate::engine::entry_same_settings(pre.sounds@[j],
                        self.sounds@[j]));
                }
                lemma_drawn_from_trans(old(self).sounds@, pre.sounds@, self.sounds@);
            }
            let ggain = lookup_gain_exec(&self.group_volumes, grp);
            let gain = combine_gains(vol, ggain);
            mix_into(buffer, scratch.as_slice(), len, gain);
            if len < total {
                let ghost mid = *self;
                if rem {
                    let _ = self.sounds.swap_remove(s);
                    proof {
                        assert forall|i: int, j: int| 0 <= i < j < self.sounds@.len()
                            implies self.sounds@[i].id != self.sounds@[j].id by {
                            assert(mid.sounds@[i].id != mid.sounds@[j].id);
                            if j == s as int {
                                assert(self.sounds@[j] == mid.sounds@.last());
                            }
                            if i == s as int {
                                assert(self.sounds@[i] == mid.sounds@.last());
                            }
                        }
                        assert forall|j: int| 0 <= j < self.sounds@.len()
                            implies entry_drawn_from(mid.sounds@,
                                #[trigger] self.sounds@[j]) by {
                            if j == s as int {
                                assert(crate::engine::entry_same_settings(
                                    mid.sounds@[mid.sounds@.len() - 1], self.sounds@[j]));
                            } else {
                                assert(crate::engine::entry_same_settings(mid.sounds@[j],
                                    self.sounds@[j]));
                            }
                        }
                        lemma_drawn_from_trans(old(self).sounds@, mid.sounds@,
                            self.sounds@);
                    }
                }
                self.playing = self.playing - 1;
                if self.playing < self.sounds.len() {
                    let ghost mid2 = *self;
                    crate::vec_swap(&mut self.sounds, s, self.playing);
                    proof {
                        assert forall|i: int, j: int| 0 <= i < j < self.sounds@.len()
                            implies self.sounds@[i].id != self.sounds@[j].id by {
                            assert(mid2.sounds@[i].id != mid2.sounds@[j].id);
                            assert(mid2.sounds@[self.playing as int].id
                                != mid2.sounds@[s as int].id
                                || self.playing == s);
                        }
                        assert forall|j: int| 0 <= j < self.sounds@.len()
                            implies entry_drawn_from(mid2.sounds@,
                                #[trigger] self.sounds@[j]) by {
                            if j == s as int {
                                assert(crate::engine::entry_same_settings(
                                    mid2.sounds@[self.playing as int], self.sounds@[j]));
                            } else if j == self.playing as int {
                                assert(crate::engine::entry_same_settings(
                                    mid2.sounds@[s as int], self.sounds@[j]));
                            } else {
                                assert(crate::engine::entry_same_settings(mid2.sounds@[j],
                                    self.sounds@[j]));
                            }
                        }
                        lemma_drawn_from_trans(old(self).sounds@, mid2.sounds@,
                            self.sounds@);
                    }
                }
            } else {
                s += 1;
            }
        }
        buffer.len()
    }
}

impl<S: SoundSource> Mixer<crate::engine::AdaptedSource<S>> {
    /// Change the mixer's output channel count and sample rate.
    ///
    /// Every registered sound is refitted to the new format; identifiers,
    /// volumes, flags, the partition, and playback positions are all kept.
    pub fn set_config(&mut self, channels: u16, sample_rate: SampleRate)
        requires
            old(self).wf(),
            channels >= 1,
            sample_rate.0 >= 1,
        ensures
            final(self).wf(),
            final(self).spec_channels() == channels,
            final(self).spec_sample_rate() == sample_rate.0,
            final(self).counter() == old(self).counter(),
            final(self).playing_part() == old(self).playing_part(),
            forall|g: u64| final(self).group_gain(g) == old(self).group_gain(g),
            final(self).entries().len() == old(self).entries().len(),
            forall|i: int| 0 <= i < old(self).entries().len()
                ==> crate::engine::entry_same_settings(old(self).entries()[i],
                    #[trigger] final(self).entries()[i]),
    {
        if self.channels == channels && self.sample_rate == sample_rate {
            return;
        }
        let mut rebuilt: Vec<SoundEntry<crate::engine::AdaptedSource<S>>> = Vec::new();
        while self.sounds.len() > 0
            invariant
                old(self).wf(),
                channels >= 1,
                sample_rate.0 >= 1,
                rebuilt@.len() + self.sounds@.len() == old(self).sounds@.len(),
                forall|i: int| 0 <= i < rebuilt@.len() ==> {
                    &&& crate::engine::entry_same_settings(old(self).sounds@[i],
                        #[trigger] rebuilt@[i])
                    &&& rebuilt@[i].source.valid()
                    &&& rebuilt@[i].source.spec_channels() == channels
                    &&& rebuilt@[i].source.spec_sample_rate() == sample_rate.0
                },
                forall|i: int| 0 <= i < self.sounds@.len()
                    ==> #[trigger] self.sounds@[i]
                        == old(self).sounds@[rebuilt@.len() + i],
                self.playing == old(self).playing,
                self.channels == old(self).channels,
                self.sample_rate == old(self).sample_rate,
                self.group_volumes == old(self).group_volumes,
                self.id_counter == old(self).id_counter,
            decreases self.sounds@.len(),
        {
            let e = self.sounds.remove(0);
            let SoundEntry { id, source, volume, group, looping, remove_on_end } = e;
            let refit = crate::engine::readapt_source(source, channels, sample_rate.0);
            rebuilt.push(SoundEntry { id, source: refit, volume, group, looping,
                remove_on_end });
        }
        self.sounds = rebuilt;
        self.channels = channels;
        self.sample_rate = sample_rate;
        proof {
            assert forall|i: int, j: int| 0 <= i < j < self.sounds@.len()
                implies self.sounds@[i].id != self.sounds@[j].id by {
                assert(old(self).sounds@[i].id != old(self).sounds@[j].id);
            }
        }
    }
}

/// Look up a group's gain in the table; unity when absent.
fn lookup_gain_exec(table: &Vec<(u64, Gain)>, g: u64) -> (r: Gain)
    requires
        forall|x: int, y: int| 0 <= x < y < table@.len()
            ==> table@[x].0 != table@[y].0,
    ensures
        r == lookup_gain(table@, g),
{
    let n = table.len();
    let mut k: usize = 0;
    while k < n
        invariant
            k <= n,
            n == table@.len(),
            forall|x: int, y: int| 0 <= x < y < table@.len()
                ==> table@[x].0 != table@[y].0,
            forall|m: int| 0 <= m < k ==> (#[trigger] table@[m]).0 != g,
        decreases n - k,
    {
        if table[k].0 == g {
            proof {
                lemma_lookup_found(table@, g, k as int);
            }
            return table[k].1;
        }
        k += 1;
    }
    proof {
        lemma_lookup_absent(table@, g);
    }
    GAIN_ONE
}

impl<S: SoundSource> SoundSource for Mixer<S> {
    closed spec fn valid(&self) -> bool {
        self.wf()
    }

    closed spec fn spec_channels(&self) -> u16 {
        self.channels
    }

    closed spec fn spec_sample_rate(&self) -> u32 {
        self.sample_rate.0
    }

    proof fn lemma_valid_format(&self) {
    }

    fn channels(&self) -> u16 {
        self.channels
    }

    fn sample_rate(&self) -> u32 {
        self.sample_rate.0
    }

    fn reset(&mut self) {
    }

    fn write_samples(&mut self, buffer: &mut [i16]) -> (n: usize) {
        self.write_samples(buffer)
    }
}

/// Replacing one pair of a gain table leaves every other key's lookup
/// unchanged.
proof fn lemma_lookup_update_other(s: Seq<(u64, Gain)>, i: int, p: (u64, Gain), g: u64)
    requires
        0 <= i < s.len(),
        g != p.0,
        s[i].0 == p.0,
    ensures
        lookup_gain(s.update(i, p), g) == lookup_gain(s, g),
    decreases s.len(),
{
    let s2 = s.update(i, p);
    if i == s.len() - 1 {
        assert(s2.drop_last() == s.drop_last());
    } else {
        assert(s2.last() == s.last());
        assert(s2.drop_last() == s.drop_last().update(i, p));
        if s.last().0 == g {
        } else {
            lemma_lookup_update_other(s.drop_last(), i, p, g);
        }
    }
}

} // verus!
