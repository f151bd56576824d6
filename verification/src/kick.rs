//! The kick voice: tone and click oscillators, a pitch sweep and an amplitude
//! envelope, combined into one sample per call.
use crate::envelope::{
    lemma_envelope_stays_valid, lemma_level_bounded, ADSREnvelope, AdsrModel, ExponentialEnvelope, Gate, SweepModel,
};
use crate::oscillator::{Oscillator, OscillatorModel};
use crate::table::{
    lemma_wave_index_in_table, wave_valid, wave_value, DecayCurve, DecayTable, Wavetable,
};
use crate::units::{
    clamped, lemma_gain_bounds, lemma_scaled_within, mul_div, scaled, SampleRate, UNIT,
};
use vstd::prelude::*;

verus! {

/// The click oscillator runs at this multiple of the tone's frequency.
pub const CLICK_RATIO: i64 = 8;

/// The click dies away as `e^(-50 t)`, with `t` in seconds since the trigger.
pub const CLICK_STEEPNESS: u8 = 50;

/// The configuration of a voice. Frequencies are in microhertz, times in
/// microseconds, levels in millionths of full scale.
#[derive(Clone, Copy, Debug)]
pub struct KickParams {
    pub start_frequency: i64,
    pub end_frequency: i64,
    pub pitch_decay_time: u32,
    pub amplitude_attack: u32,
    pub amplitude_decay: u32,
    pub amplitude_sustain: u32,
    pub amplitude_release: u32,
    pub click_level: u32,
}

impl Default for KickParams {
    /// A sweep from 150 Hz to 50 Hz in 0.1 s, under an envelope of 1 ms attack,
    /// 0.3 s decay, sustain 0.1 and 0.1 s release, with the click at 0.3.
    fn default() -> (params: KickParams)
        ensures
            params == (KickParams {
                start_frequency: 150_000_000,
                end_frequency: 50_000_000,
                pitch_decay_time: 100_000,
                amplitude_attack: 1_000,
                amplitude_decay: 300_000,
                amplitude_sustain: 100_000,
                amplitude_release: 100_000,
                click_level: 300_000,
            }),
    {
        KickParams {
            start_frequency: 150_000_000,
            end_frequency: 50_000_000,
            pitch_decay_time: 100_000,
            amplitude_attack: 1_000,
            amplitude_decay: 300_000,
            amplitude_sustain: 100_000,
            amplitude_release: 100_000,
            click_level: 300_000,
        }
    }
}

/// What a voice is, mathematically: its configuration, the two tables it
/// reads, and the state of its four stages.
pub struct VoiceModel {
    pub params: KickParams,
    /// Hertz.
    pub sample_rate: nat,
    pub wave: Seq<i32>,
    pub curve: DecayCurve,
    pub tone: OscillatorModel,
    pub click: OscillatorModel,
    pub sweep: SweepModel,
    pub amplitude: AdsrModel,
    pub playing: bool,
}

impl VoiceModel {
    /// A voice as it is built: every stage at time zero, nothing sounding.
    pub open spec fn fresh(
        params: KickParams,
        sample_rate: nat,
        wave: Seq<i32>,
        curve: DecayCurve,
    ) -> VoiceModel {
        VoiceModel {
            params,
            sample_rate,
            wave,
            curve,
            tone: OscillatorModel { sample_rate, phase: 0 },
            click: OscillatorModel { sample_rate, phase: 0 },
            sweep: SweepModel {
                start: params.start_frequency as int,
                end: params.end_frequency as int,
                duration: params.pitch_decay_time as nat,
                sample_rate,
                elapsed: 0,
            },
            amplitude: AdsrModel {
                attack: params.amplitude_attack as nat,
                decay: params.amplitude_decay as nat,
                sustain: params.amplitude_sustain as nat,
                release: params.amplitude_release as nat,
                sample_rate,
                elapsed: 0,
                gate: Gate::Released { level: 0, since: 0 },
            },
            playing: false,
        }
    }

    /// Every stage carries the configuration of the voice it belongs to.
    pub open spec fn configured(self) -> bool {
        &&& self.tone.sample_rate == self.sample_rate
        &&& self.click.sample_rate == self.sample_rate
        &&& self.sweep.start == self.params.start_frequency
        &&& self.sweep.end == self.params.end_frequency
        &&& self.sweep.duration == self.params.pitch_decay_time
        &&& self.sweep.sample_rate == self.sample_rate
        &&& self.amplitude.attack == self.params.amplitude_attack
        &&& self.amplitude.decay == self.params.amplitude_decay
        &&& self.amplitude.sustain == self.params.amplitude_sustain
        &&& self.amplitude.release == self.params.amplitude_release
        &&& self.amplitude.sample_rate == self.sample_rate
    }

    /// The voice is configured, its rate is above zero, its tables are valid,
    /// and every stage is valid in itself.
    pub open spec fn valid(self) -> bool {
        &&& self.configured()
        &&& wave_valid(self.wave)
        &&& self.curve.valid()
        &&& self.tone.valid()
        &&& self.click.valid()
        &&& self.sweep.valid()
        &&& self.amplitude.valid()
    }

    /// The voice restarted: both phases and both clocks at zero, the envelope
    /// in its attack, the voice sounding.
    pub open spec fn triggered(self) -> VoiceModel {
        VoiceModel {
            tone: self.tone.rewound(),
            click: self.click.rewound(),
            sweep: self.sweep.rewound(),
            amplitude: self.amplitude.triggered(),
            playing: true,
            ..self
        }
    }

    /// The voice with its amplitude envelope let go.
    pub open spec fn released(self) -> VoiceModel {
        VoiceModel { amplitude: self.amplitude.released(), ..self }
    }

    /// The tone's frequency at this sample, in microhertz.
    pub open spec fn frequency(self) -> int {
        self.sweep.value(self.curve)
    }

    /// The click's frequency at this sample, held at the limits of a 64-bit
    /// count.
    pub open spec fn click_frequency(self) -> int {
        clamped(CLICK_RATIO * self.frequency(), i64::MIN as int, i64::MAX as int)
    }

    /// The tone layer at this sample.
    pub open spec fn tone_signal(self) -> int {
        wave_value(self.wave, self.tone.phase, self.tone.cycle())
    }

    /// The click layer at this sample: the click oscillator's output at the
    /// click level, shaped by a decay of its own that runs on the sweep's
    /// clock.
    pub open spec fn click_signal(self) -> int {
        let raw: int = wave_value(self.wave, self.click.phase, self.click.cycle());
        let levelled: int = scaled(raw, self.params.click_level as int, UNIT as int);
        let decay: int = self.curve.decay(
            CLICK_STEEPNESS as int,
            self.sweep.elapsed as int,
            self.sample_rate as int,
        );
        scaled(levelled, decay, UNIT as int)
    }

    /// What a sounding voice puts out at this sample: the two layers summed,
    /// shaped by the amplitude envelope, and halved.
    pub open spec fn output(self) -> int {
        scaled(self.tone_signal() + self.click_signal(), self.amplitude.level(), UNIT as int) / 2
    }

    /// The sample that the next pull returns: silence unless the voice sounds.
    pub open spec fn sample(self) -> int {
        if self.playing {
            self.output()
        } else {
            0
        }
    }

    /// The voice after the next pull. A silent voice is left untouched. A
    /// sounding one advances every stage by one sample, the oscillators at the
    /// frequencies read before anything advanced, and falls silent if that
    /// finished the envelope.
    pub open spec fn next(self) -> VoiceModel {
        if self.playing {
            VoiceModel {
                tone: self.tone.advanced(self.frequency()),
                click: self.click.advanced(self.click_frequency()),
                sweep: self.sweep.advanced(),
                amplitude: self.amplitude.advanced(),
                playing: !self.amplitude.advanced().finished(),
                ..self
            }
        } else {
            self
        }
    }

    /// The voice after `pulls` pulls.
    pub open spec fn after(self, pulls: nat) -> VoiceModel
        decreases pulls,
    {
        if pulls == 0 {
            self
        } else {
            self.next().after((pulls - 1) as nat)
        }
    }

    /// The sample returned by pull number `index`, counting from zero.
    pub open spec fn sample_at(self, index: nat) -> int {
        self.after(index).sample()
    }
}

/// A single kick-drum voice.
pub struct KickSynth {
    oscillator: Oscillator,
    pitch_envelope: ExponentialEnvelope,
    amplitude_envelope: ADSREnvelope,
    click_oscillator: Oscillator,
    params: KickParams,
    sample_rate: SampleRate,
    is_playing: bool,
    wave: Wavetable,
    curve: DecayTable,
}

impl KickSynth {
    pub closed spec fn view(&self) -> VoiceModel {
        VoiceModel {
            params: self.params,
            sample_rate: self.sample_rate@,
            wave: self.wave@,
            curve: self.curve@,
            tone: self.oscillator@,
            click: self.click_oscillator@,
            sweep: self.pitch_envelope@,
            amplitude: self.amplitude_envelope@,
            playing: self.is_playing,
        }
    }

    /// A silent voice at `sample_rate` hertz that reads its waveform from
    /// `wave` and its decays from `curve`.
    pub fn new(params: KickParams, sample_rate: u32, wave: Wavetable, curve: DecayTable) -> (voice:
        KickSynth)
        requires
            sample_rate > 0,
        ensures
            voice@ == VoiceModel::fresh(params, sample_rate as nat, wave@, curve@),
            voice@.valid(),
    {
        proof {
            use_type_invariant(&wave);
            use_type_invariant(&curve);
            wave.lemma_valid();
            curve.lemma_valid();
        }
        KickSynth {
            oscillator: Oscillator::new(sample_rate),
            pitch_envelope: ExponentialEnvelope::new(
                params.start_frequency,
                params.end_frequency,
                params.pitch_decay_time,
                sample_rate,
            ),
            amplitude_envelope: ADSREnvelope::new(
                params.amplitude_attack,
                params.amplitude_decay,
                params.amplitude_sustain,
                params.amplitude_release,
                sample_rate,
            ),
            click_oscillator: Oscillator::new(sample_rate),
            params,
            sample_rate: SampleRate::new(sample_rate),
            is_playing: false,
            wave,
            curve,
        }
    }

    /// Restarts the voice from time zero, whatever it was doing.
    pub fn trigger(&mut self)
        ensures
            final(self)@ == old(self)@.triggered(),
    {
        self.oscillator.reset();
        self.click_oscillator.reset();
        self.pitch_envelope.reset();
        self.amplitude_envelope.trigger();
        self.is_playing = true;
    }

    /// Lets the amplitude envelope go. The voice keeps sounding until the
    /// release has run out.
    pub fn release(&mut self)
        ensures
            final(self)@ == old(self)@.released(),
    {
        self.amplitude_envelope.release();
    }

    /// Whether the voice is sounding.
    pub fn is_playing(&self) -> (playing: bool)
        ensures
            playing == self@.playing,
    {
        self.is_playing
    }

    /// The frequency, in microhertz, at which the tone will move on at the
    /// next pull.
    pub fn frequency(&self) -> (frequency: i64)
        ensures
            frequency == self@.frequency(),
    {
        self.pitch_envelope.get_value(&self.curve)
    }

    /// The level of the amplitude envelope, in millionths of full scale.
    pub fn amplitude(&self) -> (level: u32)
        ensures
            level == self@.amplitude.level(),
    {
        self.amplitude_envelope.get_value()
    }

    /// Produces one sample, in millionths of full scale, and moves the voice on
    /// by one sample period.
    pub fn next_sample(&mut self) -> (sample: i64)
        ensures
            sample == old(self)@.sample(),
            final(self)@ == old(self)@.next(),
    {
        if !self.is_playing {
            return 0;
        }
        let frequency: i64 = self.pitch_envelope.get_value(&self.curve);
        let amplitude: u32 = self.amplitude_envelope.get_value();

        let tone: i32 = self.oscillator.sine(frequency, &self.wave);

        assert(frequency * CLICK_RATIO == 8 * frequency);
        let wide: i128 = (frequency as i128) * (CLICK_RATIO as i128);
        let click_frequency: i64 = if wide < i64::MIN as i128 {
            i64::MIN
        } else if wide > i64::MAX as i128 {
            i64::MAX
        } else {
            wide as i64
        };
        let raw: i32 = self.click_oscillator.sine(click_frequency, &self.wave);
        let level: u32 = self.params.click_level;
        proof {
            assert(UNIT as int == 1_000_000);
            assert(-0x10_0000_0000_0000 <= raw * level <= 0x10_0000_0000_0000) by (nonlinear_arith)
                requires
                    -1_000_000 <= raw <= 1_000_000,
                    0 <= level <= u32::MAX,
            ;
            lemma_gain_bounds(raw as int, level as int);
        }
        let levelled: i128 = mul_div(raw as i128, level as u64, UNIT as u64);
        let decay: u32 = self.curve.decay(
            CLICK_STEEPNESS,
            self.pitch_envelope.current_time(),
            self.sample_rate.hertz() as u64,
        );
        proof {
            assert(-0x1_0000_0000_0000_0000 <= levelled * decay <= 0x1_0000_0000_0000_0000)
                by (nonlinear_arith)
                requires
                    -0x1_0000_0000 <= levelled <= 0x1_0000_0000,
                    0 <= decay <= 1_000_000,
            ;
            lemma_scaled_within(levelled as int, decay as int, UNIT as int);
        }
        let click: i128 = mul_div(levelled, decay as u64, UNIT as u64);
        let sum: i128 = (tone as i128) + click;
        proof {
            assert(-0x2_0000_0000_0000_0000 <= sum * amplitude <= 0x2_0000_0000_0000_0000)
                by (nonlinear_arith)
                requires
                    -0x2_0000_0000 <= sum <= 0x2_0000_0000,
                    0 <= amplitude <= u32::MAX,
            ;
            assert(UNIT as int == 1_000_000);
        }
        let shaped: i128 = mul_div(sum, amplitude as u64, UNIT as u64);
        assert(shaped == (sum * amplitude) / 1_000_000);
        let output: i128 = match shaped.checked_div_euclid(2) {
            Some(half) => half,
            // Not reached: halving always fits.
            None => 0,
        };

        self.pitch_envelope.advance();
        self.amplitude_envelope.advance();

        if self.amplitude_envelope.is_finished() {
            self.is_playing = false;
        }
        output as i64
    }
}

/// No operation on a valid voice leaves it otherwise.
pub proof fn lemma_validity_kept(voice: VoiceModel)
    requires
        voice.valid(),
    ensures
        voice.triggered().valid(),
        voice.released().valid(),
        voice.next().valid(),
{
    lemma_envelope_stays_valid(voice.amplitude);
}

/// A trigger restarts the voice whatever it was doing: the state after it is
/// that of a voice triggered straight after it was built, so nothing of the
/// progress made before the trigger is left, and the next sample is the first
/// sample of a fresh voice.
pub proof fn lemma_trigger_restarts(voice: VoiceModel)
    requires
        voice.configured(),
    ensures
        voice.triggered() == VoiceModel::fresh(
            voice.params,
            voice.sample_rate,
            voice.wave,
            voice.curve,
        ).triggered(),
        voice.triggered().tone.phase == 0,
        voice.triggered().click.phase == 0,
        voice.triggered().sweep.elapsed == 0,
        voice.triggered().amplitude.elapsed == 0,
        voice.triggered().amplitude.gate is Held,
        voice.triggered().playing,
{
}

/// Once a voice is silent, every pull returns exactly zero and leaves the
/// voice as it was, however many pulls follow.
pub proof fn lemma_silence_lasts(voice: VoiceModel, pulls: nat)
    requires
        !voice.playing,
    ensures
        voice.after(pulls) == voice,
        voice.sample_at(pulls) == 0,
    decreases pulls,
{
    if pulls > 0 {
        lemma_silence_lasts(voice.next(), (pulls - 1) as nat);
    }
}

/// Two voices of one configuration, triggered, give the same sample at every
/// pull from then on, whatever either of them did before its trigger.
pub proof fn lemma_voices_agree(first: VoiceModel, second: VoiceModel, index: nat)
    requires
        first.configured(),
        second.configured(),
        first.params == second.params,
        first.sample_rate == second.sample_rate,
        first.wave == second.wave,
        first.curve == second.curve,
    ensures
        first.triggered().after(index) == second.triggered().after(index),
        first.triggered().sample_at(index) == second.triggered().sample_at(index),
{
    lemma_trigger_restarts(first);
    lemma_trigger_restarts(second);
}

/// Pulling once more after `pulls` pulls is the same as pulling `pulls + 1`
/// times.
pub proof fn lemma_after_next(voice: VoiceModel, pulls: nat)
    ensures
        voice.after(pulls).next() == voice.after(pulls + 1),
    decreases pulls,
{
    if pulls > 0 {
        lemma_after_next(voice.next(), (pulls - 1) as nat);
        assert(voice.after(pulls + 1) == voice.next().after(pulls));
    } else {
        assert(voice.after(1) == voice.next().after(0));
    }
}

/// How loud a sample can be. While the envelope is at most at full scale, a
/// sample lies within half the sum of full scale and the click level, to
/// within one count of rounding. Nothing clamps it: a click level above full
/// scale raises the bound with it.
pub proof fn lemma_sample_range(voice: VoiceModel)
    requires
        voice.valid(),
        voice.amplitude.level() <= UNIT,
    ensures
        -(UNIT + voice.params.click_level) - 1 <= 2 * voice.sample() <= UNIT
            + voice.params.click_level,
{
    lemma_level_bounded(voice.amplitude, u32::MAX as int);
    if voice.playing {
        let one: int = UNIT as int;
        let level: int = voice.params.click_level as int;
        assert(voice.tone.cycle() > 0 && voice.click.cycle() > 0) by (nonlinear_arith)
            requires
                voice.tone.sample_rate > 0,
                voice.click.sample_rate > 0,
                voice.tone.cycle() == voice.tone.sample_rate * UNIT,
                voice.click.cycle() == voice.click.sample_rate * UNIT,
                UNIT == 1_000_000,
        ;
        let len: int = voice.wave.len() as int;
        lemma_wave_index_in_table(voice.tone.phase, voice.tone.cycle(), len);
        lemma_wave_index_in_table(voice.click.phase, voice.click.cycle(), len);
        let tone: int = voice.tone_signal();
        let raw: int = wave_value(voice.wave, voice.click.phase, voice.click.cycle());
        assert(-one <= tone <= one);
        assert(-one <= raw <= one);
        let levelled: int = scaled(raw, level, one);
        lemma_gain_bounds(raw, level);
        let decay: int = voice.curve.decay(
            CLICK_STEEPNESS as int,
            voice.sweep.elapsed as int,
            voice.sample_rate as int,
        );
        let i: int = voice.curve.index(
            CLICK_STEEPNESS as int,
            voice.sweep.elapsed as int,
            voice.sample_rate as int,
        );
        if 0 <= i < voice.curve.samples.len() {
            assert(voice.curve.samples[i] <= voice.curve.samples[0]);
        }
        assert(0 <= decay <= one);
        lemma_scaled_within(levelled, decay, one);
        let click: int = voice.click_signal();
        assert(-level <= click <= level);
        lemma_scaled_within(tone + click, voice.amplitude.level(), one);
    }
}

} // verus!
