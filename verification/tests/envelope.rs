use kick_synth::envelope::{ADSREnvelope, ExponentialEnvelope};
use kick_synth::table::DecayTable;

/// `e^(-k / 2)` in millionths, for `k` from 0 to 15.
fn half_step_decay() -> DecayTable {
    DecayTable::new(
        vec![
            1_000_000, 606_531, 367_879, 223_130, 135_335, 82_085, 49_787, 30_197, 18_316, 11_109,
            6_738, 4_087, 2_479, 1_503, 912, 553,
        ],
        2,
    )
    .expect("a decay starts at one and falls")
}

/// 1 ms attack, 0.3 s decay, sustain 0.1, 0.1 s release, at 48 kHz.
fn default_envelope() -> ADSREnvelope {
    ADSREnvelope::new(1_000, 300_000, 100_000, 100_000, 48_000)
}

fn advance_by(envelope: &mut ADSREnvelope, samples: u64) {
    for _ in 0..samples {
        envelope.advance();
    }
}

#[test]
fn untriggered_envelope_is_silent_and_not_held() {
    let envelope = default_envelope();
    assert!(!envelope.is_active());
    assert_eq!(envelope.current_time(), 0);
    assert_eq!(envelope.get_value(), 0);
    assert!(!envelope.is_finished());
}

#[test]
fn untriggered_envelope_finishes_when_its_release_time_has_passed() {
    let mut envelope = default_envelope();
    advance_by(&mut envelope, 4_799);
    assert!(!envelope.is_finished());
    envelope.advance();
    assert!(envelope.is_finished());
    assert_eq!(envelope.get_value(), 0);
}

#[test]
fn attack_rises_linearly_from_zero() {
    let mut envelope = default_envelope();
    envelope.trigger();
    assert!(envelope.is_active());
    assert_eq!(envelope.get_value(), 0);
    envelope.advance();
    assert_eq!(envelope.get_value(), 20_833);
    advance_by(&mut envelope, 23);
    assert_eq!(envelope.get_value(), 500_000);
    advance_by(&mut envelope, 23);
    assert_eq!(envelope.current_time(), 47);
    assert_eq!(envelope.get_value(), 979_166);
}

#[test]
fn attack_meets_decay_at_full_scale() {
    let mut envelope = default_envelope();
    envelope.trigger();
    advance_by(&mut envelope, 47);
    let before = envelope.get_value();
    envelope.advance();
    let at = envelope.get_value();
    envelope.advance();
    let after = envelope.get_value();
    assert_eq!(at, 1_000_000);
    assert_eq!(before, 979_166);
    assert_eq!(after, 999_938);
}

#[test]
fn decay_falls_linearly_to_sustain() {
    let mut envelope = default_envelope();
    envelope.trigger();
    advance_by(&mut envelope, 48 + 7_200);
    assert_eq!(envelope.get_value(), 550_000);
    advance_by(&mut envelope, 7_199);
    assert_eq!(envelope.get_value(), 100_063);
}

#[test]
fn sustain_is_reached_exactly_and_held() {
    let mut envelope = default_envelope();
    envelope.trigger();
    advance_by(&mut envelope, 48 + 14_400);
    assert_eq!(envelope.get_value(), 100_000);
    for _ in 0..10_000 {
        envelope.advance();
        assert_eq!(envelope.get_value(), 100_000);
        assert!(!envelope.is_finished());
    }
}

#[test]
fn stage_boundaries_fall_between_samples_at_44100() {
    let mut envelope = ADSREnvelope::new(1_000, 300_000, 100_000, 100_000, 44_100);
    envelope.trigger();
    envelope.advance();
    assert_eq!(envelope.get_value(), 22_675);
    envelope.advance();
    assert_eq!(envelope.get_value(), 45_351);
    advance_by(&mut envelope, 42);
    assert_eq!(envelope.get_value(), 997_732);
    envelope.advance();
    assert_eq!(envelope.get_value(), 999_939);
    envelope.advance();
    assert_eq!(envelope.get_value(), 999_871);
}

#[test]
fn release_ramps_from_the_captured_level_to_zero() {
    let mut envelope = default_envelope();
    envelope.trigger();
    advance_by(&mut envelope, 48 + 14_400 + 10);
    envelope.release();
    assert!(!envelope.is_active());
    assert_eq!(envelope.get_value(), 100_000);
    assert!(!envelope.is_finished());
    advance_by(&mut envelope, 2_400);
    assert_eq!(envelope.get_value(), 50_000);
    advance_by(&mut envelope, 2_399);
    assert_eq!(envelope.get_value(), 20);
    assert!(!envelope.is_finished());
    envelope.advance();
    assert_eq!(envelope.get_value(), 0);
    assert!(envelope.is_finished());
}

#[test]
fn release_during_attack_starts_from_the_level_reached() {
    let mut envelope = default_envelope();
    envelope.trigger();
    advance_by(&mut envelope, 24);
    envelope.release();
    assert_eq!(envelope.get_value(), 500_000);
    advance_by(&mut envelope, 1_200);
    assert_eq!(envelope.get_value(), 375_000);
}

#[test]
fn release_of_a_released_envelope_changes_nothing() {
    let mut envelope = default_envelope();
    envelope.trigger();
    advance_by(&mut envelope, 24);
    envelope.release();
    advance_by(&mut envelope, 1_200);
    envelope.release();
    assert_eq!(envelope.get_value(), 375_000);
    advance_by(&mut envelope, 1_200);
    assert_eq!(envelope.get_value(), 250_000);
}

#[test]
fn trigger_restarts_a_released_envelope() {
    let mut envelope = default_envelope();
    envelope.trigger();
    advance_by(&mut envelope, 5_000);
    envelope.release();
    advance_by(&mut envelope, 100);
    envelope.trigger();
    assert!(envelope.is_active());
    assert_eq!(envelope.current_time(), 0);
    assert_eq!(envelope.get_value(), 0);
    advance_by(&mut envelope, 24);
    assert_eq!(envelope.get_value(), 500_000);
}

#[test]
fn zero_attack_starts_at_full_scale() {
    let mut envelope = ADSREnvelope::new(0, 300_000, 100_000, 100_000, 48_000);
    envelope.trigger();
    assert_eq!(envelope.get_value(), 1_000_000);
    advance_by(&mut envelope, 7_200);
    assert_eq!(envelope.get_value(), 550_000);
}

#[test]
fn zero_decay_steps_to_sustain() {
    let mut envelope = ADSREnvelope::new(1_000, 0, 100_000, 100_000, 48_000);
    envelope.trigger();
    advance_by(&mut envelope, 47);
    assert_eq!(envelope.get_value(), 979_166);
    envelope.advance();
    assert_eq!(envelope.get_value(), 100_000);
}

#[test]
fn zero_release_ends_at_once() {
    let mut envelope = ADSREnvelope::new(1_000, 300_000, 100_000, 0, 48_000);
    assert!(envelope.is_finished());
    envelope.trigger();
    assert!(!envelope.is_finished());
    advance_by(&mut envelope, 24);
    envelope.release();
    assert_eq!(envelope.get_value(), 0);
    assert!(envelope.is_finished());
}

#[test]
fn sustain_above_full_scale_makes_the_decay_rise() {
    let mut envelope = ADSREnvelope::new(0, 1_000, 3_000_000, 1_000, 1_000);
    envelope.trigger();
    assert_eq!(envelope.get_value(), 1_000_000);
    envelope.advance();
    assert_eq!(envelope.get_value(), 3_000_000);
    let mut slow = ADSREnvelope::new(0, 4_000, 3_000_000, 1_000, 1_000);
    slow.trigger();
    let mut levels = Vec::new();
    for _ in 0..5 {
        levels.push(slow.get_value());
        slow.advance();
    }
    assert_eq!(levels, vec![1_000_000, 1_500_000, 2_000_000, 2_500_000, 3_000_000]);
}

#[test]
fn sweep_starts_at_its_start_value() {
    let curve = half_step_decay();
    let sweep = ExponentialEnvelope::new(150_000_000, 50_000_000, 100_000, 48_000);
    assert_eq!(sweep.current_time(), 0);
    assert_eq!(sweep.get_value(&curve), 150_000_000);
}

#[test]
fn sweep_follows_the_decay_curve() {
    let curve = half_step_decay();
    let mut sweep = ExponentialEnvelope::new(150_000_000, 50_000_000, 100_000, 48_000);
    let expected: [(u64, i64); 9] = [
        (1, 150_000_000),
        (479, 150_000_000),
        (480, 110_653_100),
        (481, 110_653_100),
        (959, 110_653_100),
        (960, 86_787_900),
        (2_400, 58_208_500),
        (4_799, 51_110_900),
        (4_800, 50_000_000),
    ];
    for (time, value) in expected {
        while sweep.current_time() < time {
            sweep.advance();
        }
        assert_eq!(sweep.get_value(&curve), value);
    }
}

#[test]
fn sweep_ends_at_its_end_value_and_stays() {
    let curve = half_step_decay();
    let mut sweep = ExponentialEnvelope::new(150_000_000, 50_000_000, 100_000, 48_000);
    for _ in 0..4_800 {
        sweep.advance();
    }
    for _ in 0..1_000 {
        assert_eq!(sweep.get_value(&curve), 50_000_000);
        sweep.advance();
    }
}

#[test]
fn sweep_can_rise() {
    let curve = half_step_decay();
    let mut sweep = ExponentialEnvelope::new(50_000_000, 150_000_000, 100_000, 48_000);
    for _ in 0..2_400 {
        sweep.advance();
    }
    assert_eq!(sweep.get_value(&curve), 141_791_500);
}

#[test]
fn sweep_never_turns_back() {
    let curve = half_step_decay();
    let mut sweep = ExponentialEnvelope::new(150_000_000, 50_000_000, 100_000, 44_100);
    let mut last = sweep.get_value(&curve);
    for _ in 0..5_000 {
        sweep.advance();
        let value = sweep.get_value(&curve);
        assert!(50_000_000 <= value && value <= last);
        last = value;
    }
    assert_eq!(last, 50_000_000);
}

#[test]
fn sweep_of_no_duration_is_at_its_end_from_the_outset() {
    let curve = half_step_decay();
    let sweep = ExponentialEnvelope::new(-7, 7, 0, 48_000);
    assert_eq!(sweep.get_value(&curve), 7);
}

#[test]
fn sweep_covers_the_whole_range_of_its_values() {
    let curve = half_step_decay();
    let mut sweep = ExponentialEnvelope::new(i64::MIN, i64::MAX, 1_000, 1_000);
    assert_eq!(sweep.get_value(&curve), i64::MIN);
    for _ in 0..1_000 {
        sweep.advance();
    }
    assert_eq!(sweep.get_value(&curve), i64::MAX);
}

#[test]
fn sweep_reset_returns_to_time_zero() {
    let curve = half_step_decay();
    let mut sweep = ExponentialEnvelope::new(150_000_000, 50_000_000, 100_000, 48_000);
    for _ in 0..3_000 {
        sweep.advance();
    }
    sweep.reset();
    assert_eq!(sweep.current_time(), 0);
    assert_eq!(sweep.get_value(&curve), 150_000_000);
}
