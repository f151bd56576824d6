use kick_synth::envelope::ExponentialEnvelope;
use kick_synth::oscillator::Oscillator;
use kick_synth::table::{DecayTable, Wavetable};

#[test]
fn wavetable_accepts_samples_within_full_scale() {
    assert!(Wavetable::new(vec![0, 1_000_000, 0, -1_000_000]).is_some());
    assert!(Wavetable::new(vec![0]).is_some());
}

#[test]
fn wavetable_rejects_an_empty_table() {
    assert!(Wavetable::new(Vec::new()).is_none());
}

#[test]
fn wavetable_rejects_a_sample_above_full_scale() {
    assert!(Wavetable::new(vec![0, 1_000_001, 0]).is_none());
}

#[test]
fn wavetable_rejects_a_sample_below_minus_full_scale() {
    assert!(Wavetable::new(vec![0, 0, -1_000_001]).is_none());
}

#[test]
fn wavetable_keeps_the_samples_it_was_given() {
    let wave = Wavetable::new(vec![10, 20, 30, 40]).expect("valid");
    let mut oscillator = Oscillator::new(4);
    // A quarter of a cycle per sample: one table entry per step.
    let read: Vec<i32> = (0..4).map(|_| oscillator.sine(1_000_000, &wave)).collect();
    assert_eq!(read, vec![10, 20, 30, 40]);
}

#[test]
fn decay_table_accepts_a_falling_curve_from_full_scale() {
    assert!(DecayTable::new(vec![1_000_000, 500_000, 500_000, 0], 1).is_some());
    assert!(DecayTable::new(vec![1_000_000], 0).is_some());
}

#[test]
fn decay_table_rejects_an_empty_table() {
    assert!(DecayTable::new(Vec::new(), 1).is_none());
}

#[test]
fn decay_table_rejects_a_start_other_than_full_scale() {
    assert!(DecayTable::new(vec![999_999, 500_000], 1).is_none());
    assert!(DecayTable::new(vec![1_000_001, 500_000], 1).is_none());
}

#[test]
fn decay_table_rejects_a_rise() {
    assert!(DecayTable::new(vec![1_000_000, 500_000, 500_001], 1).is_none());
}

#[test]
fn decay_past_the_table_counts_as_complete() {
    // Two entries at one entry per unit of exponent cover exponents below 2.
    // The sweep's exponent is 5 * progress, so from progress 0.4 on the table
    // is exhausted and the sweep stands at its end value.
    let curve = DecayTable::new(vec![1_000_000, 500_000], 1).expect("valid");
    let mut sweep = ExponentialEnvelope::new(0, 1_000, 10, 1_000_000);
    let mut values = Vec::new();
    for _ in 0..10 {
        values.push(sweep.get_value(&curve));
        sweep.advance();
    }
    assert_eq!(values, vec![0, 0, 500, 500, 1_000, 1_000, 1_000, 1_000, 1_000, 1_000]);
}

#[test]
fn decay_table_resolution_sets_the_step_of_exponent() {
    // Four entries per unit: index = floor(4 * 5 * progress).
    let samples: Vec<u32> = (0..20).map(|k| 1_000_000 - 50_000 * k).collect();
    let curve = DecayTable::new(samples, 4).expect("valid");
    let mut sweep = ExponentialEnvelope::new(0, 1_000_000, 100, 1_000_000);
    for n in 0..100u64 {
        assert_eq!(sweep.current_time(), n);
        let index = (20 * n / 100) as i64;
        assert_eq!(sweep.get_value(&curve), 50_000 * index);
        sweep.advance();
    }
}
