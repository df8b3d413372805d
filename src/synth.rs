use crate::envelope::{ADSR, UNITY};
use crate::ringbuffer::{pushed, RingBuffer};
use crate::voice::{keeps, retain_voices, unique_keys, valid_voice, Retain, Voice};
use vstd::prelude::*;

verus! {

/// How many produced samples the engine keeps for observers.
pub const HISTORY_SIZE: usize = 4096;

/// How many partial mix weights the engine holds for observers.
pub const PARTIALS: usize = 64;

/// The sample clock stops here; sample counts times 1000 fit in a `u64`.
pub const CLOCK_LIMIT: u64 = 18446744073709551;

/// Attack duration, in milliseconds.
pub const ATTACK_MS: u64 = 10;

/// Decay duration, in milliseconds.
pub const DECAY_MS: u64 = 400;

/// Sustain level, half of `UNITY`.
pub const SUSTAIN_LEVEL: u32 = 32768;

/// Release duration, in milliseconds.
pub const RELEASE_MS: u64 = 600;

/// The highest MIDI velocity; it stands for full amplitude.
pub const MAX_VELOCITY: u8 = 127;

/// Why the engine refused a request.
#[derive(Clone, Copy, Debug, PartialEq, Eq)]
pub enum SynthError {
    /// A sample rate of zero.
    InvalidSampleRate,
    /// A history capacity of zero.
    EmptyHistory,
    /// A partial index at or past `PARTIALS`.
    PartialOutOfRange,
    /// A partial level above `UNITY`.
    LevelOutOfRange,
}

/// The engine's envelope, with durations in units of `1 / (1000 * rate)`
/// seconds, so that an age of `n` samples is `n * 1000` units.
pub open spec fn envelope_at(rate: u32) -> ADSR {
    ADSR {
        attack: (ATTACK_MS * rate) as u64,
        decay: (DECAY_MS * rate) as u64,
        sustain: SUSTAIN_LEVEL,
        release: (RELEASE_MS * rate) as u64,
    }
}

/// The envelope level of voice `v` at clock reading `now`.
pub open spec fn voice_level(v: Voice, now: u64, rate: u32) -> int {
    let env = envelope_at(rate);
    let t = (now - v.time) * 1000;
    match v.release_time {
        Some(r) => env.level(t, (now - r) * 1000, false),
        None => env.level(t, 0, true),
    }
}

/// The gain of voice `v` at clock reading `now`: its envelope level scaled by
/// its velocity, as a fixed-point fraction of `UNITY`.
pub open spec fn voice_gain_at(v: Voice, now: u64, rate: u32) -> int {
    voice_level(v, now, rate) * v.velocity / 127
}

/// The voice set after a key press at `now`: any voice of that key goes, and a
/// held voice of it is added last.
pub open spec fn press_key(s: Seq<Voice>, key: u8, velocity: u8, now: u64) -> Seq<Voice> {
    s.filter(keeps(Retain::OtherKeys(key))).push(
        Voice { key, velocity, time: now, release_time: None },
    )
}

/// Voice `v` after the key `key` is let go at `now`: a held voice of that key
/// starts its release; any other voice is unchanged.
pub open spec fn released(v: Voice, key: u8, now: u64) -> Voice {
    if v.key == key && v.release_time.is_none() {
        Voice { release_time: Some(now), ..v }
    } else {
        v
    }
}

/// The voice set after the key `key` is let go at `now`.
pub open spec fn release_key(s: Seq<Voice>, key: u8, now: u64) -> Seq<Voice> {
    s.map_values(|v: Voice| released(v, key, now))
}

/// The voice set once the voices whose release has fully elapsed at `now`
/// are reclaimed.
pub open spec fn reclaim(s: Seq<Voice>, now: u64, rate: u32) -> Seq<Voice> {
    s.filter(keeps(Retain::Sounding { now, scale: 1000, span: (RELEASE_MS * rate) as u64 }))
}

/// The sequential synthesizer core: the live voices, the clocks, the history
/// of produced samples and the partial mix weights.
///
/// A sample is produced in three steps: `begin_sample` advances the clock
/// and the oscillator phase, the caller mixes each voice's oscillator at `voice_gain`, and
/// `finish_sample` reclaims finished voices and records the mixed sample.
pub struct Synth<S> {
    sample_clock: u64,
    phase: u64,
    sample_rate: u32,
    keys_pressed: Vec<Voice>,
    sample_buffer: RingBuffer<S>,
    samples: u64,
    partials: Vec<u32>,
}

impl<S> Synth<S> {
    /// The sample clock: samples begun since the engine was made. It is the
    /// engine's time, in samples.
    pub closed spec fn clock(&self) -> u64 {
        self.sample_clock
    }

    /// The oscillator phase accumulator: samples begun, modulo the sample rate.
    pub closed spec fn osc_phase(&self) -> u64 {
        self.phase
    }

    pub closed spec fn rate(&self) -> u32 {
        self.sample_rate
    }

    /// The live voices, in the order they were pressed.
    pub closed spec fn active(&self) -> Seq<Voice> {
        self.keys_pressed@
    }

    /// The recorded samples, newest first.
    pub closed spec fn history(&self) -> Seq<S> {
        self.sample_buffer@
    }

    pub closed spec fn history_cap(&self) -> nat {
        self.sample_buffer.cap()
    }

    /// How many samples have been recorded.
    pub closed spec fn produced(&self) -> u64 {
        self.samples
    }

    pub closed spec fn partial_levels(&self) -> Seq<u32> {
        self.partials@
    }

    pub closed spec fn wf(&self) -> bool {
        &&& self.sample_rate > 0
        &&& self.sample_clock <= CLOCK_LIMIT
        &&& self.phase < self.sample_rate
        &&& self.sample_buffer.wf()
        &&& self.sample_buffer.cap() > 0
        &&& self.partials@.len() == PARTIALS
        &&& forall|i: int| 0 <= i < PARTIALS ==> #[trigger] self.partials@[i] <= UNITY
        &&& unique_keys(self.keys_pressed@)
        &&& forall|i: int|
            0 <= i < self.keys_pressed@.len() ==> valid_voice(
                #[trigger] self.keys_pressed@[i],
                self.sample_clock,
            )
    }

    /// At most one voice per key is live, and every voice is in range and
    /// began no later than the clock reading.
    pub proof fn lemma_keys_unique(&self)
        requires
            self.wf(),
        ensures
            unique_keys(self.active()),
            forall|i: int|
                0 <= i < self.active().len() ==> valid_voice(
                    #[trigger] self.active()[i],
                    self.clock(),
                ),
    {
    }

    /// A well-formed engine at `rate` that has produced nothing, holds no
    /// voice, and has an empty history of capacity `cap` and silent partials.
    pub open spec fn fresh(&self, rate: u32, cap: nat) -> bool {
        &&& self.wf()
        &&& self.clock() == 0
        &&& self.osc_phase() == 0
        &&& self.rate() == rate
        &&& self.active() == Seq::<Voice>::empty()
        &&& self.history() == Seq::<S>::empty()
        &&& self.history_cap() == cap
        &&& self.produced() == 0
        &&& self.partial_levels() == Seq::new(PARTIALS as nat, |i: int| 0u32)
    }

    /// An engine at `sample_rate` whose history holds the last `capacity`
    /// samples; both must be positive.
    pub fn with_history(sample_rate: u32, capacity: usize) -> (r: Result<Self, SynthError>)
        ensures
            sample_rate == 0 ==> r == Err::<Self, SynthError>(SynthError::InvalidSampleRate),
            sample_rate > 0 && capacity == 0 ==> r == Err::<Self, SynthError>(
                SynthError::EmptyHistory,
            ),
            sample_rate > 0 && capacity > 0 ==> (r matches Ok(s) && s.fresh(sample_rate, capacity as nat)),
    {
        if sample_rate == 0 {
            return Err(SynthError::InvalidSampleRate);
        }
        if capacity == 0 {
            return Err(SynthError::EmptyHistory);
        }
        let mut partials: Vec<u32> = Vec::with_capacity(PARTIALS);
        let mut i: usize = 0;
        while i < PARTIALS
            invariant
                i <= PARTIALS,
                partials@ == Seq::new(i as nat, |j: int| 0u32),
            decreases PARTIALS - i,
        {
            partials.push(0);
            i = i + 1;
            assert(partials@ =~= Seq::new(i as nat, |j: int| 0u32));
        }
        Ok(
            Synth {
                sample_clock: 0,
                phase: 0,
                sample_rate,
                keys_pressed: Vec::new(),
                sample_buffer: RingBuffer::with_size(capacity),
                samples: 0,
                partials,
            },
        )
    }

    /// An engine at `sample_rate`, with a history of `HISTORY_SIZE` samples.
    pub fn new(sample_rate: u32) -> (r: Result<Self, SynthError>)
        ensures
            sample_rate == 0 <==> r == Err::<Self, SynthError>(SynthError::InvalidSampleRate),
            sample_rate > 0 ==> (r matches Ok(s) && s.fresh(sample_rate, HISTORY_SIZE as nat)),
    {
        Self::with_history(sample_rate, HISTORY_SIZE)
    }

    /// The sample clock: samples begun since the engine was made.
    pub fn sample_clock(&self) -> (r: u64)
        ensures
            r == self.clock(),
    {
        self.sample_clock
    }

    /// The oscillator phase accumulator, always below the sample rate.
    pub fn oscillator_phase(&self) -> (r: u64)
        requires
            self.wf(),
        ensures
            r == self.osc_phase(),
            r < self.rate(),
    {
        self.phase
    }

    pub fn sample_rate(&self) -> (r: u32)
        ensures
            r == self.rate(),
    {
        self.sample_rate
    }

    /// Changes the sample rate, which must be positive. Times already counted
    /// keep their number of samples; the oscillator phase is reduced modulo
    /// the new rate.
    pub fn set_sample_rate(&mut self, sample_rate: u32) -> (r: Result<(), SynthError>)
        requires
            old(self).wf(),
        ensures
            final(self).wf(),
            sample_rate == 0 <==> r == Err::<(), SynthError>(SynthError::InvalidSampleRate),
            final(self).rate() == if sample_rate == 0 {
                old(self).rate()
            } else {
                sample_rate
            },
            final(self).osc_phase() == (old(self).osc_phase() as int) % (final(self).rate() as int),
            final(self).clock() == old(self).clock(),
            final(self).active() == old(self).active(),
            final(self).history() == old(self).history(),
            final(self).history_cap() == old(self).history_cap(),
            final(self).produced() == old(self).produced(),
            final(self).partial_levels() == old(self).partial_levels(),
    {
        if sample_rate == 0 {
            proof {
                vstd::arithmetic::div_mod::lemma_small_mod(
                    self.phase as nat,
                    self.sample_rate as nat,
                );
            }
            return Err(SynthError::InvalidSampleRate);
        }
        self.sample_rate = sample_rate;
        self.phase = self.phase % sample_rate as u64;
        Ok(())
    }

    /// The history of recorded samples, newest first.
    pub fn sample_buffer(&self) -> (r: &RingBuffer<S>)
        requires
            self.wf(),
        ensures
            r.wf(),
            r@ == self.history(),
            r.cap() == self.history_cap(),
    {
        &self.sample_buffer
    }

    /// How many samples have been recorded since the engine was made.
    pub fn samples(&self) -> (r: u64)
        ensures
            r == self.produced(),
    {
        self.samples
    }

    /// The most recently recorded sample, if any.
    pub fn last_sample(&self) -> (r: Option<&S>)
        requires
            self.wf(),
        ensures
            self.history().len() > 0 ==> r == Some(&self.history()[0]),
            self.history().len() == 0 ==> r.is_none(),
    {
        self.sample_buffer.get(0)
    }

    /// The live voices, in the order they were pressed.
    pub fn voices(&self) -> (r: &Vec<Voice>)
        ensures
            r@ == self.active(),
    {
        &self.keys_pressed
    }

    /// Starts a note: a voice already sounding or releasing for `key` is
    /// replaced by a held voice that starts now.
    pub fn toggle_key_down(&mut self, key: u8, vel: u8)
        requires
            old(self).wf(),
            key < 128,
            vel <= MAX_VELOCITY,
        ensures
            final(self).wf(),
            final(self).active() == press_key(old(self).active(), key, vel, old(self).clock()),
            final(self).clock() == old(self).clock(),
            final(self).osc_phase() == old(self).osc_phase(),
            final(self).rate() == old(self).rate(),
            final(self).history() == old(self).history(),
            final(self).history_cap() == old(self).history_cap(),
            final(self).produced() == old(self).produced(),
            final(self).partial_levels() == old(self).partial_levels(),
    {
        retain_voices(&mut self.keys_pressed, Retain::OtherKeys(key), Ghost(self.sample_clock));
        let ghost kept = self.keys_pressed@;
        let v = Voice { key, velocity: vel, time: self.sample_clock, release_time: None };
        proof {
            assert forall|i: int| 0 <= i < kept.len() implies #[trigger] kept[i].key != key by {
                old(self).keys_pressed@.lemma_filter_pred(keeps(Retain::OtherKeys(key)), i);
            }
        }
        self.keys_pressed.push(v);
        proof {
            assert(self.keys_pressed@ == kept.push(v));
            assert forall|i: int| 0 <= i < self.keys_pressed@.len() implies valid_voice(
                #[trigger] self.keys_pressed@[i],
                self.sample_clock,
            ) by {
                if i < kept.len() {
                    assert(self.keys_pressed@[i] == kept[i]);
                }
            }
        }
    }

    /// Lets go of `key`: its held voice, if there is one, starts its release
    /// now. Anything else is left as it is.
    pub fn toggle_key_up(&mut self, key: u8)
        requires
            old(self).wf(),
        ensures
            final(self).wf(),
            final(self).active() == release_key(old(self).active(), key, old(self).clock()),
            final(self).clock() == old(self).clock(),
            final(self).osc_phase() == old(self).osc_phase(),
            final(self).rate() == old(self).rate(),
            final(self).history() == old(self).history(),
            final(self).history_cap() == old(self).history_cap(),
            final(self).produced() == old(self).produced(),
            final(self).partial_levels() == old(self).partial_levels(),
    {
        let ghost orig = self.keys_pressed@;
        let now = self.sample_clock;
        let n = self.keys_pressed.len();
        let mut i: usize = 0;
        while i < n
            invariant
                i <= n,
                n == orig.len(),
                now == self.sample_clock,
                old(self).wf(),
                orig == old(self).keys_pressed@,
                self.sample_clock == old(self).sample_clock,
                self.phase == old(self).phase,
                self.sample_rate == old(self).sample_rate,
                self.sample_buffer == old(self).sample_buffer,
                self.samples == old(self).samples,
                self.partials == old(self).partials,
                self.keys_pressed@.len() == n,
                forall|j: int|
                    0 <= j < n ==> #[trigger] self.keys_pressed@[j] == if j < i {
                        released(orig[j], key, now)
                    } else {
                        orig[j]
                    },
            decreases n - i,
        {
            let v = self.keys_pressed[i];
            if v.key == key && v.release_time.is_none() {
                self.keys_pressed[i] = Voice { release_time: Some(now), ..v };
            }
            i = i + 1;
        }
        proof {
            assert(self.keys_pressed@ =~= release_key(orig, key, now));
            assert forall|a: int, b: int|
                0 <= a < n && 0 <= b < n && a != b implies self.keys_pressed@[a].key
                != self.keys_pressed@[b].key by {
                assert(self.keys_pressed@[a].key == orig[a].key);
                assert(self.keys_pressed@[b].key == orig[b].key);
            }
            assert forall|j: int| 0 <= j < n implies valid_voice(
                #[trigger] self.keys_pressed@[j],
                self.sample_clock,
            ) by {
                assert(valid_voice(orig[j], now));
            }
        }
    }

    /// Starts a sample: the clock advances by one, and the oscillator phase by
    /// one modulo the sample rate.
    pub fn begin_sample(&mut self)
        requires
            old(self).wf(),
            old(self).clock() < CLOCK_LIMIT,
        ensures
            final(self).wf(),
            final(self).clock() == old(self).clock() + 1,
            final(self).osc_phase() == (old(self).osc_phase() as int + 1) % (old(self).rate() as int),
            final(self).rate() == old(self).rate(),
            final(self).active() == old(self).active(),
            final(self).history() == old(self).history(),
            final(self).history_cap() == old(self).history_cap(),
            final(self).produced() == old(self).produced(),
            final(self).partial_levels() == old(self).partial_levels(),
    {
        self.sample_clock = self.sample_clock + 1;
        self.phase = (self.phase + 1) % self.sample_rate as u64;
        proof {
            assert forall|j: int| 0 <= j < self.keys_pressed@.len() implies valid_voice(
                #[trigger] self.keys_pressed@[j],
                self.sample_clock,
            ) by {
                assert(valid_voice(old(self).keys_pressed@[j], old(self).sample_clock));
            }
        }
    }

    /// The gain of voice `i` at the current clock reading, as a fixed-point
    /// fraction of `UNITY`.
    pub fn voice_gain(&self, i: usize) -> (r: u32)
        requires
            self.wf(),
            i < self.active().len(),
        ensures
            r == voice_gain_at(self.active()[i as int], self.clock(), self.rate()),
            r <= UNITY,
    {
        let v = self.keys_pressed[i];
        assert(valid_voice(v, self.sample_clock));
        let rate = self.sample_rate as u64;
        let env = ADSR {
            attack: ATTACK_MS * rate,
            decay: DECAY_MS * rate,
            sustain: SUSTAIN_LEVEL,
            release: RELEASE_MS * rate,
        };
        let t = (self.sample_clock - v.time) * 1000;
        let level = match v.release_time {
            Some(r) => env.evaluate(t, (self.sample_clock - r) * 1000, false),
            None => env.evaluate(t, 0, true),
        };
        proof {
            let l = level as int;
            let vv = v.velocity as int;
            assert(l * vv <= 65536 * 127) by (nonlinear_arith)
                requires 0 <= l <= 65536, 0 <= vv <= 127;
            assert(l * vv / 127 <= 65536) by (nonlinear_arith)
                requires 0 <= l * vv <= 65536 * 127;
        }
        (level as u64 * v.velocity as u64 / 127) as u32
    }

    /// Ends a sample: voices whose release has fully elapsed are reclaimed,
    /// and `sample` is recorded as the newest entry of the history.
    pub fn finish_sample(&mut self, sample: S)
        requires
            old(self).wf(),
            old(self).produced() < u64::MAX,
        ensures
            final(self).wf(),
            final(self).active() == reclaim(old(self).active(), old(self).clock(), old(self).rate()),
            final(self).history() == pushed(old(self).history(), sample, old(self).history_cap()),
            final(self).produced() == old(self).produced() + 1,
            final(self).clock() == old(self).clock(),
            final(self).osc_phase() == old(self).osc_phase(),
            final(self).rate() == old(self).rate(),
            final(self).history_cap() == old(self).history_cap(),
            final(self).partial_levels() == old(self).partial_levels(),
    {
        let r = Retain::Sounding {
            now: self.sample_clock,
            scale: 1000,
            span: RELEASE_MS * self.sample_rate as u64,
        };
        retain_voices(&mut self.keys_pressed, r, Ghost(self.sample_clock));
        self.sample_buffer.push(sample);
        self.samples = self.samples + 1;
    }

    /// The weight of partial `i`, if `i` is below `PARTIALS`.
    pub fn partial(&self, i: usize) -> (r: Option<u32>)
        requires
            self.wf(),
        ensures
            i < PARTIALS ==> r == Some(self.partial_levels()[i as int]),
            i >= PARTIALS ==> r.is_none(),
    {
        if i < self.partials.len() {
            Some(self.partials[i])
        } else {
            None
        }
    }

    /// Sets the weight of partial `i`; an index at or past `PARTIALS`, or a
    /// level above `UNITY`, is refused and changes nothing.
    pub fn set_partial(&mut self, i: usize, level: u32) -> (r: Result<(), SynthError>)
        requires
            old(self).wf(),
        ensures
            final(self).wf(),
            i >= PARTIALS ==> r == Err::<(), SynthError>(SynthError::PartialOutOfRange),
            i < PARTIALS && level > UNITY ==> r == Err::<(), SynthError>(
                SynthError::LevelOutOfRange,
            ),
            r is Ok <==> i < PARTIALS && level <= UNITY,
            final(self).partial_levels() == if r is Ok {
                old(self).partial_levels().update(i as int, level)
            } else {
                old(self).partial_levels()
            },
            final(self).clock() == old(self).clock(),
            final(self).osc_phase() == old(self).osc_phase(),
            final(self).rate() == old(self).rate(),
            final(self).active() == old(self).active(),
            final(self).history() == old(self).history(),
            final(self).history_cap() == old(self).history_cap(),
            final(self).produced() == old(self).produced(),
    {
        if i >= self.partials.len() {
            return Err(SynthError::PartialOutOfRange);
        }
        if level > UNITY {
            return Err(SynthError::LevelOutOfRange);
        }
        self.partials[i] = level;
        Ok(())
    }
}

/// Letting go of a key twice at the same instant leaves the voices as letting
/// go of it once does.
pub proof fn lemma_release_idempotent(s: Seq<Voice>, key: u8, now: u64)
    ensures
        release_key(release_key(s, key, now), key, now) == release_key(s, key, now),
{
    assert(release_key(release_key(s, key, now), key, now) =~= release_key(s, key, now));
}

/// Pressing a key twice without letting go leaves exactly one voice of that
/// key: the last one, held, with the second velocity and start time.
pub proof fn lemma_retrigger_replaces(
    s: Seq<Voice>,
    key: u8,
    v1: u8,
    t1: u64,
    v2: u8,
    t2: u64,
)
    ensures
        ({
            let r = press_key(press_key(s, key, v1, t1), key, v2, t2);
            &&& r.last() == Voice { key, velocity: v2, time: t2, release_time: None }
            &&& forall|i: int| 0 <= i < r.len() - 1 ==> #[trigger] r[i].key != key
        }),
{
    let p = press_key(s, key, v1, t1);
    let f = p.filter(keeps(Retain::OtherKeys(key)));
    let r = press_key(p, key, v2, t2);
    assert forall|i: int| 0 <= i < r.len() - 1 implies #[trigger] r[i].key != key by {
        assert(r[i] == f[i]);
        p.lemma_filter_pred(keeps(Retain::OtherKeys(key)), i);
    }
}

/// Letting go of a held voice's key leaves its level unchanged at that
/// instant: the release starts from the level the voice had reached.
pub proof fn lemma_release_no_jump(v: Voice, now: u64, rate: u32)
    requires
        v.release_time.is_none(),
        v.time <= now,
    ensures
        voice_level(released(v, v.key, now), now, rate) == voice_level(v, now, rate),
{
    crate::envelope::lemma_release_continuous(envelope_at(rate), (now - v.time) * 1000);
}

/// Reclaiming never removes a held voice.
pub proof fn lemma_held_voices_stay(s: Seq<Voice>, now: u64, rate: u32, i: int)
    requires
        0 <= i < s.len(),
        s[i].release_time.is_none(),
    ensures
        reclaim(s, now, rate).contains(s[i]),
{
    let p = keeps(Retain::Sounding { now, scale: 1000, span: (RELEASE_MS * rate) as u64 });
    assert(p(s[i]));
    s.lemma_filter_contains_rev(p, s[i]);
    assert(s.contains(s[i]));
}

/// Some voice of `s` has key `key`.
pub open spec fn has_key(s: Seq<Voice>, key: u8) -> bool {
    exists|i: int| 0 <= i < s.len() && s[i].key == key
}

/// Dropping the voices of one key from a set with unique keys drops one voice
/// when the key has one and none otherwise; what is left has unique keys, none
/// of them `key`.
pub proof fn lemma_other_keys(s: Seq<Voice>, key: u8)
    requires
        unique_keys(s),
    ensures
        ({
            let f = s.filter(keeps(Retain::OtherKeys(key)));
            &&& f.len() == if has_key(s, key) {
                s.len() - 1
            } else {
                s.len() as int
            }
            &&& unique_keys(f)
            &&& forall|i: int| 0 <= i < f.len() ==> #[trigger] f[i].key != key
        }),
    decreases s.len(),
{
    let p = keeps(Retain::OtherKeys(key));
    if s.len() == 0 {
        assert(s.filter(p) =~= Seq::<Voice>::empty()) by {
            reveal(Seq::filter);
        }
    } else {
        let prev = s.drop_last();
        let x = s.last();
        assert(s =~= prev.push(x));
        assert(unique_keys(prev)) by {
            assert forall|i: int, j: int|
                0 <= i < prev.len() && 0 <= j < prev.len() && i != j implies prev[i].key
                != prev[j].key by {
                assert(prev[i] == s[i] && prev[j] == s[j]);
            }
        }
        lemma_other_keys(prev, key);
        prev.lemma_filter_push(x, p);
        let fp = prev.filter(p);
        let f = s.filter(p);
        assert forall|i: int| 0 <= i < prev.len() implies #[trigger] prev[i].key != x.key by {
            assert(prev[i] == s[i]);
            assert(x == s[s.len() - 1]);
        }
        if x.key == key {
            assert(f == fp);
            assert(has_key(s, key));
            assert(!has_key(prev, key));
        } else {
            assert(f == fp.push(x));
            assert(has_key(s, key) == has_key(prev, key)) by {
                if has_key(s, key) {
                    let i = choose|i: int| 0 <= i < s.len() && s[i].key == key;
                    assert(prev[i] == s[i]);
                }
                if has_key(prev, key) {
                    let i = choose|i: int| 0 <= i < prev.len() && prev[i].key == key;
                    assert(s[i] == prev[i]);
                }
            }
            assert forall|a: int, b: int|
                0 <= a < f.len() && 0 <= b < f.len() && a != b implies f[a].key
                != f[b].key by {
                if a == f.len() - 1 && b < fp.len() {
                    assert(fp.contains(fp[b]));
                    prev.lemma_filter_contains_rev(p, fp[b]);
                    let j = choose|j: int| 0 <= j < prev.len() && prev[j] == fp[b];
                    assert(prev[j].key != x.key);
                } else if b == f.len() - 1 && a < fp.len() {
                    assert(fp.contains(fp[a]));
                    prev.lemma_filter_contains_rev(p, fp[a]);
                    let j = choose|j: int| 0 <= j < prev.len() && prev[j] == fp[a];
                    assert(prev[j].key != x.key);
                } else {
                    assert(f[a] == fp[a] && f[b] == fp[b]);
                }
            }
            assert forall|i: int| 0 <= i < f.len() implies #[trigger] f[i].key != key by {
                if i < fp.len() {
                    assert(f[i] == fp[i]);
                }
            }
        }
    }
}

/// A key press leaves at most one voice per key, and adds a voice unless the
/// key already had one, which it replaces.
pub proof fn lemma_press_count(s: Seq<Voice>, key: u8, velocity: u8, now: u64)
    requires
        unique_keys(s),
    ensures
        unique_keys(press_key(s, key, velocity, now)),
        press_key(s, key, velocity, now).len() == if has_key(s, key) {
            s.len() as int
        } else {
            s.len() + 1 as int
        },
{
    lemma_other_keys(s, key);
    let f = s.filter(keeps(Retain::OtherKeys(key)));
    let r = press_key(s, key, velocity, now);
    assert forall|a: int, b: int|
        0 <= a < r.len() && 0 <= b < r.len() && a != b implies r[a].key != r[b].key by {
        if a < f.len() {
            assert(r[a] == f[a]);
        }
        if b < f.len() {
            assert(r[b] == f[b]);
        }
    }
}

} // verus!
