use vstd::prelude::*;

verus! {

/// One sounding or releasing note. Times are engine clock readings, in samples.
#[derive(Clone, Copy, Debug, PartialEq, Eq)]
pub struct Voice {
    /// MIDI note number, below 128.
    pub key: u8,
    /// MIDI velocity, at most 127 (full amplitude).
    pub velocity: u8,
    /// When the note began sounding.
    pub time: u64,
    /// When the key was let go, if it has been.
    pub release_time: Option<u64>,
}

/// A voice whose fields are in range and whose times are not after `now`.
pub open spec fn valid_voice(v: Voice, now: u64) -> bool {
    &&& v.key < 128
    &&& v.velocity <= 127
    &&& v.time <= now
    &&& match v.release_time {
        Some(r) => v.time <= r && r <= now,
        None => true,
    }
}

/// No two voices share a key.
pub open spec fn unique_keys(s: Seq<Voice>) -> bool {
    forall|i: int, j: int| 0 <= i < s.len() && 0 <= j < s.len() && i != j ==> s[i].key != s[j].key
}

/// Which voices a compaction of the voice set keeps.
#[derive(Clone, Copy)]
pub enum Retain {
    /// Those of every key but this one.
    OtherKeys(u8),
    /// Those not released for at least `span` time units, at the reading
    /// `now` of a clock that counts `scale` units per sample.
    Sounding { now: u64, scale: u64, span: u64 },
}

/// A released voice whose release phase has fully elapsed.
pub open spec fn finished(v: Voice, now: u64, scale: u64, span: u64) -> bool {
    match v.release_time {
        Some(r) => (now - r) * scale >= span,
        None => false,
    }
}

/// The test a compaction applies to each voice.
pub open spec fn keeps(r: Retain) -> spec_fn(Voice) -> bool {
    match r {
        Retain::OtherKeys(k) => |v: Voice| v.key != k,
        Retain::Sounding { now, scale, span } => |v: Voice| !finished(v, now, scale, span),
    }
}

fn keeps_voice(r: Retain, v: &Voice) -> (b: bool)
    requires
        r matches Retain::Sounding { now, scale, .. } ==> valid_voice(*v, now) && now * scale
            <= u64::MAX,
    ensures
        b == keeps(r)(*v),
{
    match r {
        Retain::OtherKeys(k) => v.key != k,
        Retain::Sounding { now, scale, span } => match v.release_time {
            Some(rt) => {
                proof {
                    assert((now - rt) * scale <= now * scale) by (nonlinear_arith)
                        requires rt <= now, scale >= 0;
                }
                (now - rt) * scale < span
            },
            None => true,
        },
    }
}

/// Keeps, in order, the voices that `r` keeps, without allocating.
pub(crate) fn retain_voices(voices: &mut Vec<Voice>, r: Retain, Ghost(now): Ghost<u64>)
    requires
        unique_keys(old(voices)@),
        forall|i: int| 0 <= i < old(voices)@.len() ==> valid_voice(#[trigger] old(voices)@[i], now),
        r matches Retain::Sounding { now: n, scale, .. } ==> n == now && now * scale <= u64::MAX,
    ensures
        final(voices)@ == old(voices)@.filter(keeps(r)),
        unique_keys(final(voices)@),
        forall|i: int| 0 <= i < final(voices)@.len() ==> valid_voice(#[trigger] final(voices)@[i], now),
{
    let ghost orig = voices@;
    let n = voices.len();
    let mut w: usize = 0;
    let mut i: usize = 0;
    let ghost mut idx: Seq<int> = Seq::empty();
    while i < n
        invariant
            w <= i <= n,
            n == orig.len(),
            voices@.len() == n,
            unique_keys(orig),
            forall|j: int| 0 <= j < n ==> valid_voice(#[trigger] orig[j], now),
            r matches Retain::Sounding { now: nn, scale, .. } ==> nn == now && now * scale <= u64::MAX,
            voices@.take(w as int) == orig.take(i as int).filter(keeps(r)),
            forall|j: int| i <= j < n ==> #[trigger] voices@[j] == orig[j],
            idx.len() == w,
            forall|m: int| 0 <= m < w ==> 0 <= #[trigger] idx[m] < i && voices@[m] == orig[idx[m]],
            forall|a: int, b: int| 0 <= a < b < w ==> #[trigger] idx[a] < #[trigger] idx[b],
        decreases n - i,
    {
        let v = voices[i];
        proof {
            assert(orig.take(i as int + 1) =~= orig.take(i as int).push(orig[i as int]));
            orig.take(i as int).lemma_filter_push(orig[i as int], keeps(r));
        }
        if keeps_voice(r, &v) {
            let ghost before = voices@;
            voices[w] = v;
            proof {
                assert(voices@.take(w as int + 1) =~= before.take(w as int).push(v));
                idx = idx.push(i as int);
            }
            w = w + 1;
        }
        i = i + 1;
    }
    voices.truncate(w);
    proof {
        assert(orig.take(n as int) =~= orig);
        assert(voices@ =~= voices@.take(w as int));
        assert forall|a: int, b: int|
            0 <= a < voices@.len() && 0 <= b < voices@.len() && a != b implies voices@[a].key
            != voices@[b].key by {
            if a < b {
                assert(idx[a] < idx[b]);
            } else {
                assert(idx[b] < idx[a]);
            }
        }
        assert forall|m: int| 0 <= m < voices@.len() implies valid_voice(#[trigger] voices@[m], now) by {
            assert(voices@[m] == orig[idx[m]]);
        }
    }
}

} // verus!
