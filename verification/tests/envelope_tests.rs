use ui_synth::envelope::{Envelope, EnvelopeState, Phase, GAIN_ONE, RELEASE_MARGIN_US};

fn example() -> Envelope {
    Envelope::new(100_000, 200_000, 700_000, 300_000)
}

#[test]
fn new_keeps_the_four_parameters() {
    let e = Envelope::new(1, 2, 3, 4);
    assert_eq!(e.attack, 1);
    assert_eq!(e.decay, 2);
    assert_eq!(e.sustain, 3);
    assert_eq!(e.release, 4);
}

#[test]
fn gain_starts_at_zero() {
    assert_eq!(example().gain(0, None), 0);
}

#[test]
fn gain_is_full_at_the_end_of_the_attack() {
    assert_eq!(example().gain(100_000, None), 1_000_000);
}

#[test]
fn gain_is_at_sustain_at_the_end_of_the_decay() {
    assert_eq!(example().gain(300_000, None), 700_000);
}

#[test]
fn gain_halfway_up_the_attack() {
    assert_eq!(example().gain(50_000, None), 500_000);
}

#[test]
fn gain_halfway_down_the_decay() {
    assert_eq!(example().gain(200_000, None), 850_000);
}

#[test]
fn gain_holds_the_sustain_level() {
    assert_eq!(example().gain(5_000_000, None), 700_000);
    assert_eq!(example().gain(u64::MAX, None), 700_000);
}

#[test]
fn gain_halfway_through_the_release() {
    assert_eq!(example().gain(1_150_000, Some(150_000)), 350_000);
}

#[test]
fn gain_rounds_the_ramp_down() {
    // a third of the way up: 333333.33 millionths
    let e = Envelope::new(3, 0, 0, 0);
    assert_eq!(e.gain(1, None), 333_333);
    assert_eq!(e.gain(2, None), 666_666);
}

#[test]
fn released_voice_is_silent_at_the_end_of_the_release() {
    let mut s = EnvelopeState::new(example(), 0);
    s.release(1_000_000);
    assert_eq!(s.gain(1_300_000), 0);
    assert_eq!(s.gain(2_000_000), 0);
}

#[test]
fn released_voice_is_finished_after_the_margin() {
    let mut s = EnvelopeState::new(example(), 0);
    s.release(1_000_000);
    assert!(!s.is_finished(1_300_000));
    assert!(!s.is_finished(1_399_999));
    assert!(s.is_finished(1_400_000));
    assert!(s.is_finished(9_000_000));
    assert_eq!(RELEASE_MARGIN_US, 100_000);
}

#[test]
fn held_voice_is_never_finished() {
    let s = EnvelopeState::new(example(), 0);
    assert!(!s.is_finished(u64::MAX));
    assert!(!example().finished(None));
}

#[test]
fn release_during_the_attack_follows_the_attack_ramp() {
    let mut s = EnvelopeState::new(example(), 0);
    s.release(20_000);
    assert_eq!(s.gain(50_000), 500_000);
    assert_eq!(s.gain(200_000), 850_000);
}

#[test]
fn zero_attack_enters_the_decay_at_full_scale() {
    let e = Envelope::new(0, 2_000_000, 0, 0);
    assert_eq!(e.gain(0, None), 1_000_000);
    assert_eq!(e.gain(1_000_000, None), 500_000);
    assert_eq!(e.gain(2_000_000, None), 0);
}

#[test]
fn zero_attack_and_decay_jump_to_the_sustain_level() {
    let e = Envelope::new(0, 0, 400_000, 0);
    assert_eq!(e.gain(0, None), 400_000);
    let full = Envelope::new(0, 0, GAIN_ONE, 0);
    assert_eq!(full.gain(0, None), 1_000_000);
}

#[test]
fn zero_release_is_silent_at_once() {
    let e = Envelope::new(0, 0, 400_000, 0);
    assert_eq!(e.gain(10, Some(0)), 0);
    assert!(!e.finished(Some(99_999)));
    assert!(e.finished(Some(100_000)));
}

#[test]
fn all_durations_zero_never_divide() {
    let e = Envelope::new(0, 0, 0, 0);
    assert_eq!(e.gain(0, None), 0);
    assert_eq!(e.gain(0, Some(0)), 0);
    assert_eq!(e.gain(u64::MAX, Some(u64::MAX)), 0);
}

#[test]
fn sustain_above_full_scale_acts_as_full_scale() {
    let e = Envelope::new(10, 10, u64::MAX, 10);
    assert_eq!(e.gain(15, None), 1_000_000);
    assert_eq!(e.gain(20, None), 1_000_000);
    assert_eq!(e.gain(20, Some(5)), 500_000);
}

#[test]
fn gain_stays_in_range_over_a_sweep() {
    let envelopes = [
        example(),
        Envelope::new(0, 0, 0, 0),
        Envelope::new(u64::MAX, u64::MAX, GAIN_ONE, u64::MAX),
        Envelope::new(7, 13, 999_999, 3),
        Envelope::new(1, u64::MAX, 1, 1),
    ];
    let times = [0u64, 1, 6, 7, 8, 19, 20, 21, 99_999, 100_000, 300_001, u64::MAX - 1, u64::MAX];
    for e in envelopes.iter() {
        for t in times.iter() {
            assert!(e.gain(*t, None) <= GAIN_ONE);
            for r in times.iter() {
                assert!(e.gain(*t, Some(*r)) <= GAIN_ONE);
            }
        }
    }
}

#[test]
fn largest_durations_do_not_overflow() {
    let e = Envelope::new(u64::MAX, u64::MAX, 0, u64::MAX);
    assert_eq!(e.gain(u64::MAX - 1, None), 999_999);
    assert_eq!(e.gain(u64::MAX, None), 1_000_000);
    assert!(!e.finished(Some(u64::MAX)));
}

#[test]
fn second_release_keeps_the_first_time() {
    let mut s = EnvelopeState::new(example(), 0);
    assert!(!s.is_releasing());
    s.release(1_000_000);
    let once = s;
    s.release(1_200_000);
    assert_eq!(s, once);
    assert_eq!(s.time_released, Some(1_000_000));
    assert!(s.is_releasing());
}

#[test]
fn times_before_the_trigger_count_as_zero() {
    let mut s = EnvelopeState::new(example(), 500);
    assert_eq!(s.time_since_start(400), 0);
    assert_eq!(s.time_since_start(700), 200);
    assert_eq!(s.time_since_release(700), None);
    s.release(600);
    assert_eq!(s.time_since_release(550), Some(0));
    assert_eq!(s.time_since_release(700), Some(100));
}

#[test]
fn held_voice_goes_through_attack_decay_and_sustain() {
    let s = EnvelopeState::new(example(), 1_000);
    assert_eq!(s.phase(1_000), Phase::Attack);
    assert_eq!(s.phase(100_999), Phase::Attack);
    assert_eq!(s.phase(101_000), Phase::Decay);
    assert_eq!(s.phase(300_999), Phase::Decay);
    assert_eq!(s.phase(301_000), Phase::Sustain);
    assert_eq!(s.phase(u64::MAX), Phase::Sustain);
}

#[test]
fn released_voice_goes_through_release_to_finished() {
    let mut s = EnvelopeState::new(example(), 0);
    s.release(1_000_000);
    assert_eq!(s.phase(1_000_000), Phase::Release);
    assert_eq!(s.phase(1_399_999), Phase::Release);
    assert_eq!(s.phase(1_400_000), Phase::Finished);
}

#[test]
fn voice_released_early_stays_in_its_ramp_until_it_finishes() {
    let mut s = EnvelopeState::new(Envelope::new(1_000_000, 1_000_000, 500_000, 0), 0);
    s.release(10);
    assert_eq!(s.phase(50_000), Phase::Attack);
    assert_eq!(s.phase(100_009), Phase::Attack);
    assert_eq!(s.phase(100_010), Phase::Finished);
    assert_eq!(example().phase(0, Some(400_000)), Phase::Finished);
    assert_eq!(example().phase(150_000, Some(0)), Phase::Decay);
}
