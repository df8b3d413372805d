use polysynth::{lin_lerp, ADSR, UNITY};

fn env() -> ADSR {
    ADSR { attack: 100, decay: 400, sustain: 32768, release: 600 }
}

#[test]
fn held_level_starts_at_zero() {
    assert_eq!(env().evaluate(0, 0, true), 0);
    assert_eq!(env().evaluate(0, 123, true), 0);
}

#[test]
fn attack_ramps_linearly() {
    assert_eq!(env().evaluate(50, 0, true), 32768);
    assert_eq!(env().evaluate(25, 0, true), 16384);
}

#[test]
fn end_of_attack_is_full() {
    assert_eq!(env().evaluate(100, 0, true), UNITY);
    assert_eq!(env().evaluate(100, 77, true), UNITY);
}

#[test]
fn decay_reaches_sustain() {
    assert_eq!(env().evaluate(500, 0, true), 32768);
    assert_eq!(env().evaluate(501, 0, true), 32768);
    assert_eq!(env().evaluate(1_000_000, 0, true), 32768);
}

#[test]
fn decay_ramps_from_full_to_sustain() {
    // fraction (300 - 100) / 400 between full and sustain
    assert_eq!(env().evaluate(300, 0, true), 49152);
    // fraction 100 / 400
    assert_eq!(env().evaluate(200, 0, true), 57344);
}

#[test]
fn release_is_continuous_at_release_instant() {
    for t in [0u64, 1, 50, 99, 100, 250, 499, 500, 10_000] {
        assert_eq!(env().evaluate(t, 0, false), env().evaluate(t, 0, true));
    }
}

#[test]
fn release_ramps_to_zero() {
    // released at 200, where the held level was 57344
    assert_eq!(env().evaluate(500, 300, false), 28672);
    assert_eq!(env().evaluate(500, 600, false), 0);
}

#[test]
fn release_starts_from_level_at_release_instant() {
    let e = ADSR { attack: 10, decay: 10, sustain: 32768, release: 100 };
    // released at the very start, when the level was 0
    assert_eq!(e.evaluate(50, 50, false), 0);
    // released mid-attack, at half level, then halfway through the release
    assert_eq!(e.evaluate(55, 50, false), 16384);
}

#[test]
fn fraction_past_one_counts_as_zero() {
    // held level at the release instant 399: (65536 * 101 + 32768 * 299) / 400
    assert_eq!(env().evaluate(1000, 601, false), 41041);
    assert_eq!(lin_lerp(10, 20, 5, 4), 10);
}

#[test]
fn lerp_exact_values() {
    assert_eq!(lin_lerp(0, UNITY, 1, 4), 16384);
    assert_eq!(lin_lerp(UNITY, 0, 1, 4), 49152);
    assert_eq!(lin_lerp(7, 9, 0, 0), 7);
    assert_eq!(lin_lerp(7, 9, 3, 3), 9);
}
