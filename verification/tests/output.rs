use kick_synth::kick::{KickParams, KickSynth};
use kick_synth::output::{sample_to_i16, sample_to_u16, write_data_i16, write_data_u16};
use kick_synth::table::{DecayTable, Wavetable};

fn quick_voice() -> KickSynth {
    let wave =
        Wavetable::new(vec![0, 707_107, 1_000_000, 707_107, 0, -707_107, -1_000_000, -707_107])
            .expect("within full scale");
    let curve = DecayTable::new(
        vec![
            1_000_000, 606_531, 367_879, 223_130, 135_335, 82_085, 49_787, 30_197, 18_316, 11_109,
            6_738, 4_087, 2_479, 1_503, 912, 553,
        ],
        2,
    )
    .expect("a decay starts at one and falls");
    let params = KickParams {
        start_frequency: 6_000_000_000,
        end_frequency: 3_000_000_000,
        pitch_decay_time: 1_000,
        amplitude_attack: 100,
        amplitude_decay: 200,
        amplitude_sustain: 500_000,
        amplitude_release: 100,
        click_level: 500_000,
    };
    KickSynth::new(params, 48_000, wave, curve)
}

#[test]
fn signed_conversion_maps_full_scale_to_the_largest_value() {
    assert_eq!(sample_to_i16(0), 0);
    assert_eq!(sample_to_i16(1_000_000), 32_767);
    assert_eq!(sample_to_i16(-1_000_000), -32_767);
}

#[test]
fn signed_conversion_drops_fractions_toward_zero() {
    assert_eq!(sample_to_i16(500_000), 16_383);
    assert_eq!(sample_to_i16(-500_000), -16_383);
    assert_eq!(sample_to_i16(1), 0);
    assert_eq!(sample_to_i16(-1), 0);
    assert_eq!(sample_to_i16(31), 1);
    assert_eq!(sample_to_i16(-31), -1);
    assert_eq!(sample_to_i16(999_999), 32_766);
    assert_eq!(sample_to_i16(-999_999), -32_766);
}

#[test]
fn signed_conversion_holds_the_sample_within_full_scale_first() {
    assert_eq!(sample_to_i16(2_000_000), 32_767);
    assert_eq!(sample_to_i16(-2_000_000), -32_767);
    assert_eq!(sample_to_i16(1_000_001), 32_767);
    assert_eq!(sample_to_i16(-1_000_001), -32_767);
    assert_eq!(sample_to_i16(-1_000_031), -32_767);
    assert_eq!(sample_to_i16(i64::MAX), 32_767);
    assert_eq!(sample_to_i16(i64::MIN), -32_767);
}

#[test]
fn signed_conversion_never_leaves_the_symmetric_range() {
    let mut sample: i64 = -3_000_000;
    while sample <= 3_000_000 {
        let value = sample_to_i16(sample);
        assert!(-32_767 <= value && value <= 32_767);
        sample += 997;
    }
}

#[test]
fn signed_frames_of_a_voice_beyond_full_scale_stay_in_the_symmetric_range() {
    // A one-point wave at minus full scale, a click at three times full scale
    // and an envelope that stands at full scale from the outset: the first
    // sample is minus twice full scale.
    let wave = Wavetable::new(vec![-1_000_000]).expect("within full scale");
    let curve = DecayTable::new(vec![1_000_000, 0], 1).expect("a decay starts at one and falls");
    let params = KickParams {
        start_frequency: 0,
        end_frequency: 0,
        pitch_decay_time: 0,
        amplitude_attack: 0,
        amplitude_decay: 0,
        amplitude_sustain: 1_000_000,
        amplitude_release: 0,
        click_level: 3_000_000,
    };
    let mut probe = KickSynth::new(params, 48_000, wave, curve);
    probe.trigger();
    assert_eq!(probe.next_sample(), -2_000_000);

    let wave = Wavetable::new(vec![-1_000_000]).expect("within full scale");
    let curve = DecayTable::new(vec![1_000_000, 0], 1).expect("a decay starts at one and falls");
    let mut voice = KickSynth::new(params, 48_000, wave, curve);
    voice.trigger();
    let mut signed = [0i16; 2];
    write_data_i16(&mut signed, &mut voice);
    assert_eq!(signed, [-32_767, -32_767]);

    let wave = Wavetable::new(vec![-1_000_000]).expect("within full scale");
    let curve = DecayTable::new(vec![1_000_000, 0], 1).expect("a decay starts at one and falls");
    let mut voice = KickSynth::new(params, 48_000, wave, curve);
    voice.trigger();
    let mut unsigned = [7u16; 2];
    write_data_u16(&mut unsigned, &mut voice);
    assert_eq!(unsigned, [0, 0]);
}

#[test]
fn unsigned_conversion_maps_the_range_onto_the_format() {
    assert_eq!(sample_to_u16(0), 32_767);
    assert_eq!(sample_to_u16(1_000_000), 65_535);
    assert_eq!(sample_to_u16(-1_000_000), 0);
    assert_eq!(sample_to_u16(500_000), 49_151);
    assert_eq!(sample_to_u16(-500_000), 16_383);
    assert_eq!(sample_to_u16(31), 32_768);
    assert_eq!(sample_to_u16(-31), 32_766);
    assert_eq!(sample_to_u16(999_999), 65_534);
}

#[test]
fn unsigned_conversion_holds_at_the_ends_of_the_format() {
    assert_eq!(sample_to_u16(2_000_000), 65_535);
    assert_eq!(sample_to_u16(-2_000_000), 0);
    assert_eq!(sample_to_u16(-999_999), 0);
    assert_eq!(sample_to_u16(i64::MAX), 65_535);
    assert_eq!(sample_to_u16(i64::MIN), 0);
}

#[test]
fn signed_frames_carry_one_sample_on_both_channels() {
    let mut voice = quick_voice();
    voice.trigger();
    let mut buffer = [0i16; 12];
    write_data_i16(&mut buffer, &mut voice);
    // Samples 0, 73 656, 208 333, 220 970, 0, -349 871.
    assert_eq!(buffer, [0, 0, 2_413, 2_413, 6_826, 6_826, 7_240, 7_240, 0, 0, -11_464, -11_464]);
    // Six pulls were made: the next sample is the seventh.
    assert_eq!(voice.next_sample(), -565_832);
}

#[test]
fn unsigned_frames_carry_one_sample_on_both_channels() {
    let mut voice = quick_voice();
    voice.trigger();
    let mut buffer = [0u16; 8];
    write_data_u16(&mut buffer, &mut voice);
    assert_eq!(buffer, [32_767, 32_767, 35_181, 35_181, 39_594, 39_594, 40_008, 40_008]);
    assert_eq!(voice.next_sample(), 0);
}

#[test]
fn an_odd_buffer_ends_with_a_frame_of_one_value() {
    let mut voice = quick_voice();
    voice.trigger();
    let mut buffer = [0i16; 5];
    write_data_i16(&mut buffer, &mut voice);
    assert_eq!(buffer, [0, 0, 2_413, 2_413, 6_826]);
    // Three pulls were made.
    assert_eq!(voice.next_sample(), 220_970);
}

#[test]
fn an_empty_buffer_pulls_nothing() {
    let mut voice = quick_voice();
    voice.trigger();
    let mut signed: [i16; 0] = [];
    let mut unsigned: [u16; 0] = [];
    write_data_i16(&mut signed, &mut voice);
    write_data_u16(&mut unsigned, &mut voice);
    assert_eq!(voice.next_sample(), 0);
    assert_eq!(voice.next_sample(), 73_656);
}

#[test]
fn a_silent_voice_fills_the_buffer_with_silence() {
    let mut voice = quick_voice();
    let mut signed = [7i16; 6];
    let mut unsigned = [7u16; 6];
    write_data_i16(&mut signed, &mut voice);
    write_data_u16(&mut unsigned, &mut voice);
    assert_eq!(signed, [0; 6]);
    assert_eq!(unsigned, [32_767; 6]);
}
