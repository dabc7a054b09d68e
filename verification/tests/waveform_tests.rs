use ui_synth::waveform::{sample, Oscillator, WaveformKind, PHASE_ONE, SAMPLE_ONE, SAMPLE_RATE};

#[test]
fn one_period_is_a_second_of_samples_at_one_hertz() {
    assert_eq!(PHASE_ONE, SAMPLE_RATE * 1000);
    assert_eq!(SAMPLE_ONE, 1_000_000);
}

#[test]
fn square_is_one_then_minus_one() {
    assert_eq!(sample(WaveformKind::Square, 0), Some(1_000_000));
    assert_eq!(sample(WaveformKind::Square, 23_999_999), Some(1_000_000));
    assert_eq!(sample(WaveformKind::Square, 24_000_000), Some(-1_000_000));
    assert_eq!(sample(WaveformKind::Square, 47_999_999), Some(-1_000_000));
}

#[test]
fn sawtooth_ramps_from_minus_one_to_one() {
    assert_eq!(sample(WaveformKind::Sawtooth, 0), Some(-1_000_000));
    assert_eq!(sample(WaveformKind::Sawtooth, 12_000_000), Some(-500_000));
    assert_eq!(sample(WaveformKind::Sawtooth, 24_000_000), Some(0));
    assert_eq!(sample(WaveformKind::Sawtooth, 36_000_000), Some(500_000));
    assert_eq!(sample(WaveformKind::Sawtooth, 47_999_999), Some(999_999));
}

#[test]
fn triangle_goes_up_down_and_up() {
    assert_eq!(sample(WaveformKind::Triangle, 0), Some(0));
    assert_eq!(sample(WaveformKind::Triangle, 6_000_000), Some(500_000));
    assert_eq!(sample(WaveformKind::Triangle, 12_000_000), Some(1_000_000));
    assert_eq!(sample(WaveformKind::Triangle, 18_000_000), Some(500_000));
    assert_eq!(sample(WaveformKind::Triangle, 24_000_000), Some(0));
    assert_eq!(sample(WaveformKind::Triangle, 36_000_000), Some(-1_000_000));
    assert_eq!(sample(WaveformKind::Triangle, 42_000_000), Some(-500_000));
    assert_eq!(sample(WaveformKind::Triangle, 47_999_988), Some(-1));
}

#[test]
fn sine_is_left_to_the_caller() {
    assert_eq!(sample(WaveformKind::Sine, 0), None);
    assert_eq!(sample(WaveformKind::Sine, 12_000_000), None);
}

#[test]
fn samples_stay_in_range() {
    let mut phase: u32 = 0;
    while phase < PHASE_ONE {
        for kind in [WaveformKind::Square, WaveformKind::Sawtooth, WaveformKind::Triangle] {
            let v = sample(kind, phase).unwrap();
            assert!(-SAMPLE_ONE <= v && v <= SAMPLE_ONE);
        }
        phase += 9_973;
    }
}

#[test]
fn oscillator_steps_by_its_frequency() {
    // 12 kHz: four samples to the period
    let mut o = Oscillator::sawtooth_wave(12_000_000);
    assert_eq!(o.waveform(), WaveformKind::Sawtooth);
    assert_eq!(o.next(), (0, Some(-1_000_000)));
    assert_eq!(o.next(), (12_000_000, Some(-500_000)));
    assert_eq!(o.next(), (24_000_000, Some(0)));
    assert_eq!(o.next(), (36_000_000, Some(500_000)));
    assert_eq!(o.next(), (0, Some(-1_000_000)));
}

#[test]
fn oscillator_phase_is_frequency_times_samples() {
    let millihertz: u32 = 440_000;
    let mut o = Oscillator::triangle_wave(millihertz);
    for n in 0..1_000u64 {
        let (phase, value) = o.next();
        assert_eq!(phase as u64, (millihertz as u64 * n) % (PHASE_ONE as u64));
        assert_eq!(value, sample(WaveformKind::Triangle, phase));
    }
}

#[test]
fn oscillator_above_the_sample_rate_wraps() {
    let mut o = Oscillator::square_wave(u32::MAX);
    let step = (u32::MAX % PHASE_ONE) as u64;
    for n in 0..100u64 {
        let (phase, _) = o.next();
        assert_eq!(phase as u64, (step * n) % (PHASE_ONE as u64));
    }
}

#[test]
fn oscillator_never_ends() {
    let mut o = Oscillator::sine_wave(440_000);
    assert_eq!(o.waveform(), WaveformKind::Sine);
    for _ in 0..100_000 {
        let (phase, value) = o.next();
        assert!(phase < PHASE_ONE);
        assert_eq!(value, None);
    }
    let mut q = Oscillator::new(WaveformKind::Square, 0);
    for _ in 0..10 {
        assert_eq!(q.next(), (0, Some(1_000_000)));
    }
}

#[test]
fn phase_beyond_the_period_counts_from_its_start() {
    for kind in [WaveformKind::Square, WaveformKind::Sawtooth, WaveformKind::Triangle] {
        assert_eq!(sample(kind, PHASE_ONE), sample(kind, 0));
        assert_eq!(sample(kind, PHASE_ONE + 6_000_000), sample(kind, 6_000_000));
        assert_eq!(sample(kind, u32::MAX), sample(kind, u32::MAX % PHASE_ONE));
    }
    assert_eq!(sample(WaveformKind::Sine, u32::MAX), None);
}
