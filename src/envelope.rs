use vstd::prelude::*;

verus! {

/// The fixed-point level that stands for full amplitude (1.0).
pub const UNITY: u32 = 65536;

/// Linear interpolation from `a` to `b` at the fraction `num / den`.
/// A fraction outside `[0, 1]`, or one with a zero denominator, counts as 0,
/// so the result is then `a`. Integer division rounds down.
pub open spec fn lerp(a: int, b: int, num: int, den: int) -> int {
    if den <= 0 || num < 0 || num > den {
        a
    } else {
        (a * (den - num) + b * num) / den
    }
}

/// Attack, decay and release durations, in any one unit of time, and the
/// sustain level as a fixed-point fraction of `UNITY`.
#[derive(Clone, Copy, Debug, PartialEq, Eq)]
pub struct ADSR {
    pub attack: u64,
    pub decay: u64,
    pub sustain: u32,
    pub release: u64,
}

impl ADSR {
    /// The sustain level is at most full amplitude, and the end of the decay
    /// phase can be expressed in the same unit.
    pub open spec fn wf(&self) -> bool {
        &&& self.sustain <= UNITY
        &&& self.attack + self.decay <= u64::MAX
    }

    /// The level while the key is held, `t` after the start of the note:
    /// a ramp from 0 to full over the attack, then from full to the sustain
    /// level over the decay, reaching it `attack + decay` after the start, then
    /// the sustain level.
    pub open spec fn held_level(&self, t: int) -> int {
        if t < self.attack {
            lerp(0, UNITY as int, t, self.attack as int)
        } else if t < self.attack + self.decay {
            lerp(UNITY as int, self.sustain as int, t - self.attack, self.decay as int)
        } else {
            self.sustain as int
        }
    }

    /// When a note `t` old was released `t2` ago: at `t - t2` after its start,
    /// or at its start if `t2` is larger than `t`.
    pub open spec fn release_instant(t: int, t2: int) -> int {
        if t2 <= t {
            t - t2
        } else {
            0
        }
    }

    /// The level `t` after the start of the note. Once released (`down` false),
    /// the held level reached at the release instant ramps toward 0 over the
    /// release, `t2` after the release.
    pub open spec fn level(&self, t: int, t2: int, down: bool) -> int {
        if down {
            self.held_level(t)
        } else {
            lerp(self.held_level(Self::release_instant(t, t2)), 0, t2, self.release as int)
        }
    }

    /// The held level `t` after the start of a note.
    fn held(&self, t: u64) -> (r: u32)
        requires
            self.wf(),
        ensures
            r == self.held_level(t as int),
            r <= UNITY,
    {
        if t < self.attack {
            lin_lerp(0, UNITY, t, self.attack)
        } else if t < self.attack + self.decay {
            lin_lerp(UNITY, self.sustain, t - self.attack, self.decay)
        } else {
            self.sustain
        }
    }

    /// The amplitude level `t` after the start of a note, and `t2` after its
    /// release when `down` is false.
    pub fn evaluate(&self, t: u64, t2: u64, down: bool) -> (r: u32)
        requires
            self.wf(),
        ensures
            r == self.level(t as int, t2 as int, down),
            r <= UNITY,
    {
        if down {
            self.held(t)
        } else {
            let at = if t2 <= t {
                t - t2
            } else {
                0
            };
            lin_lerp(self.held(at), 0, t2, self.release)
        }
    }
}

/// `lerp` on levels; the result lies between the two ends.
pub fn lin_lerp(a: u32, b: u32, t: u64, den: u64) -> (r: u32)
    requires
        a <= UNITY,
        b <= UNITY,
    ensures
        r == lerp(a as int, b as int, t as int, den as int),
        r <= UNITY,
        a <= b ==> a <= r <= b,
        b <= a ==> b <= r <= a,
{
    if den == 0 || t > den {
        return a;
    }
    let hi: u128 = if a >= b { a as u128 } else { b as u128 };
    let lo: u128 = if a >= b { b as u128 } else { a as u128 };
    proof {
        let (aa, bb, tt, dd) = (a as int, b as int, t as int, den as int);
        assert(aa * (dd - tt) <= hi * (dd - tt)) by (nonlinear_arith)
            requires aa <= hi, tt <= dd;
        assert(bb * tt <= hi * tt) by (nonlinear_arith)
            requires bb <= hi, tt >= 0;
        assert(aa * (dd - tt) >= lo * (dd - tt)) by (nonlinear_arith)
            requires aa >= lo, tt <= dd;
        assert(bb * tt >= lo * tt) by (nonlinear_arith)
            requires bb >= lo, tt >= 0;
        assert(hi * (dd - tt) + hi * tt == hi * dd) by (nonlinear_arith);
        assert(lo * (dd - tt) + lo * tt == lo * dd) by (nonlinear_arith);
        assert(hi * dd <= 65536 * 0x1_0000_0000_0000_0000) by (nonlinear_arith)
            requires hi <= 65536, dd < 0x1_0000_0000_0000_0000;
        let s = aa * (dd - tt) + bb * tt;
        assert(s / dd <= hi) by (nonlinear_arith)
            requires s <= hi * dd, dd > 0;
        assert(s / dd >= lo) by (nonlinear_arith)
            requires s >= lo * dd, dd > 0, lo >= 0;
        assert(aa * (dd - tt) <= 65536 * 0x1_0000_0000_0000_0000) by (nonlinear_arith)
            requires aa <= 65536, 0 <= dd - tt < 0x1_0000_0000_0000_0000;
        assert(bb * tt <= 65536 * 0x1_0000_0000_0000_0000) by (nonlinear_arith)
            requires bb <= 65536, 0 <= tt < 0x1_0000_0000_0000_0000;
    }
    let p: u128 = a as u128 * (den - t) as u128;
    let q: u128 = b as u128 * t as u128;
    ((p + q) / den as u128) as u32
}

/// At the very start of a note the level is 0.
pub proof fn lemma_starts_silent(env: ADSR, t2: int)
    requires
        env.wf(),
        env.attack > 0,
    ensures
        env.level(0, t2, true) == 0,
{
}

/// At the end of the attack the level is full amplitude.
pub proof fn lemma_attack_peak(env: ADSR, t2: int)
    requires
        env.wf(),
        env.decay > 0,
    ensures
        env.level(env.attack as int, t2, true) == UNITY,
{
    let d = env.decay as int;
    assert((UNITY as int) * d / d == UNITY) by (nonlinear_arith)
        requires d > 0;
}

/// While held, the level reaches the sustain level at `attack + decay` and
/// stays there.
pub proof fn lemma_sustains(env: ADSR, t: int, t2: int)
    requires
        env.wf(),
        t >= env.attack + env.decay,
    ensures
        env.level(t, t2, true) == env.sustain,
{
}

/// Releasing does not change the level at the instant of release.
pub proof fn lemma_release_continuous(env: ADSR, t: int)
    requires
        env.wf(),
        t >= 0,
    ensures
        env.level(t, 0, false) == env.level(t, 0, true),
{
    let v = env.held_level(t);
    let r = env.release as int;
    if r > 0 {
        assert(v * (r - 0) + 0 * 0 == v * r) by (nonlinear_arith);
        assert((v * r) / r == v) by (nonlinear_arith)
            requires r > 0;
    }
}

} // verus!
