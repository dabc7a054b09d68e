use ui_synth::envelope::{Envelope, EnvelopeState};
use ui_synth::synth::{GainUpdate, Synth};

fn example() -> Envelope {
    Envelope::new(100_000, 200_000, 700_000, 300_000)
}

#[test]
fn new_registry_is_empty() {
    let s: Synth<u32> = Synth::new();
    assert_eq!(s.len(), 0);
    assert!(!s.contains(60));
}

#[test]
fn play_source_adds_a_voice() {
    let mut s: Synth<&str> = Synth::new();
    s.play_source("a", 60, example(), 1_000);
    assert_eq!(s.len(), 1);
    assert!(s.contains(60));
    assert_eq!(s.handle(60), Some(&"a"));
    assert_eq!(s.state(60), Some(EnvelopeState::new(example(), 1_000)));
}

#[test]
fn triggering_twice_leaves_one_voice_with_the_second_parameters() {
    let mut s: Synth<&str> = Synth::new();
    let second = Envelope::new(1, 2, 3, 4);
    s.play_source("first", 60, example(), 1_000);
    s.play_source("second", 60, second, 2_000);
    assert_eq!(s.len(), 1);
    assert_eq!(s.handle(60), Some(&"second"));
    assert_eq!(s.state(60), Some(EnvelopeState::new(second, 2_000)));
}

#[test]
fn triggering_a_releasing_voice_starts_it_afresh() {
    let mut s: Synth<u32> = Synth::new();
    s.play_source(1, 60, example(), 0);
    s.release_source(60, 10);
    s.play_source(2, 60, example(), 20);
    let state = s.state(60).unwrap();
    assert!(!state.is_releasing());
    assert_eq!(state.start_time, 20);
}

#[test]
fn release_marks_the_voice() {
    let mut s: Synth<u32> = Synth::new();
    s.play_source(1, 60, example(), 0);
    s.play_source(2, 61, example(), 0);
    s.release_source(60, 1_000_000);
    assert_eq!(s.state(60).unwrap().time_released, Some(1_000_000));
    assert_eq!(s.state(61).unwrap().time_released, None);
    assert_eq!(s.handle(60), Some(&1));
    assert_eq!(s.len(), 2);
}

#[test]
fn releasing_twice_is_releasing_once() {
    let mut s: Synth<u32> = Synth::new();
    s.play_source(1, 60, example(), 0);
    s.release_source(60, 1_000_000);
    let once = s.state(60);
    s.release_source(60, 1_250_000);
    assert_eq!(s.state(60), once);
    assert_eq!(s.state(60).unwrap().time_released, Some(1_000_000));
    assert_eq!(s.len(), 1);
}

#[test]
fn releasing_an_unknown_id_changes_nothing() {
    let mut s: Synth<u32> = Synth::new();
    s.release_source(5, 10);
    assert_eq!(s.len(), 0);
    assert!(!s.contains(5));
    s.play_source(7, 60, example(), 0);
    s.release_source(61, 10);
    assert_eq!(s.len(), 1);
    assert!(!s.contains(61));
    assert_eq!(s.state(60), Some(EnvelopeState::new(example(), 0)));
}

#[test]
fn update_reports_every_gain_by_rising_id() {
    let mut s: Synth<u32> = Synth::new();
    s.play_source(1, 200, example(), 0);
    s.play_source(2, 3, example(), 50_000);
    s.play_source(3, 0, example(), 100_000);
    s.play_source(4, 255, example(), 0);
    let gains = s.update(100_000);
    assert_eq!(
        gains,
        vec![
            GainUpdate { source_id: 0, gain: 0 },
            GainUpdate { source_id: 3, gain: 500_000 },
            GainUpdate { source_id: 200, gain: 1_000_000 },
            GainUpdate { source_id: 255, gain: 1_000_000 },
        ]
    );
    assert_eq!(s.len(), 4);
}

#[test]
fn update_of_an_empty_registry_reports_nothing() {
    let mut s: Synth<u32> = Synth::new();
    assert_eq!(s.update(1_000), vec![]);
    assert_eq!(s.len(), 0);
}

#[test]
fn update_removes_finished_voices_only() {
    let mut s: Synth<u32> = Synth::new();
    s.play_source(1, 60, example(), 0);
    s.play_source(2, 61, example(), 0);
    s.play_source(3, 62, example(), 0);
    s.release_source(60, 1_000_000);
    s.release_source(62, 1_200_000);

    let gains = s.update(1_399_999);
    assert_eq!(gains.len(), 3);
    assert_eq!(s.len(), 3);

    let gains = s.update(1_400_000);
    assert_eq!(
        gains,
        vec![
            GainUpdate { source_id: 60, gain: 0 },
            GainUpdate { source_id: 61, gain: 700_000 },
            GainUpdate { source_id: 62, gain: 233_334 },
        ]
    );
    assert!(!s.contains(60));
    assert!(s.contains(61));
    assert!(s.contains(62));
    assert_eq!(s.handle(62), Some(&3));

    let gains = s.update(1_600_000);
    assert_eq!(gains.len(), 2);
    assert_eq!(s.len(), 1);
    assert!(s.contains(61));
}

#[test]
fn voice_follows_the_example_through_its_life() {
    let mut s: Synth<u32> = Synth::new();
    s.play_source(9, 64, example(), 0);
    assert_eq!(s.update(0), vec![GainUpdate { source_id: 64, gain: 0 }]);
    assert_eq!(s.update(100_000), vec![GainUpdate { source_id: 64, gain: 1_000_000 }]);
    assert_eq!(s.update(300_000), vec![GainUpdate { source_id: 64, gain: 700_000 }]);
    s.release_source(64, 1_000_000);
    assert_eq!(s.update(1_300_000), vec![GainUpdate { source_id: 64, gain: 0 }]);
    assert!(s.contains(64));
    assert_eq!(s.update(1_400_000), vec![GainUpdate { source_id: 64, gain: 0 }]);
    assert!(!s.contains(64));
    assert_eq!(s.update(1_500_000), vec![]);
}

#[test]
fn release_all_releases_held_voices_and_keeps_release_times() {
    let mut s: Synth<u32> = Synth::new();
    s.play_source(1, 0, example(), 0);
    s.play_source(2, 127, example(), 0);
    s.play_source(3, 255, example(), 0);
    s.release_source(127, 500);
    s.release_all(900);
    assert_eq!(s.len(), 3);
    assert_eq!(s.state(0).unwrap().time_released, Some(900));
    assert_eq!(s.state(127).unwrap().time_released, Some(500));
    assert_eq!(s.state(255).unwrap().time_released, Some(900));
    assert_eq!(s.handle(0), Some(&1));
    assert_eq!(s.handle(255), Some(&3));
    s.update(400_900);
    assert_eq!(s.len(), 0);
}

#[test]
fn release_all_of_an_empty_registry_makes_no_voice() {
    let mut s: Synth<u32> = Synth::new();
    s.release_all(10);
    assert_eq!(s.len(), 0);
}
