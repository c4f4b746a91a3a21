use live_synth::frequency::{get_note_frequency, Frequency};
use live_synth::note::{Accord, BaseNote, Note};
use live_synth::sequencer::{duration_ms, Action, Sequencer, Step, MILLIS_PER_MINUTE};

fn hertz(frequency: Frequency) -> f64 {
    frequency.mantissa as f64 * 2.0_f64.powi(frequency.exponent as i32)
}

fn single(note: BaseNote, octave: i32, beats: u32) -> Step {
    Step {
        accord: Accord {
            notes: vec![Note::new(note, octave)],
        },
        beats,
    }
}

#[test]
fn one_beat_at_160_bpm_lasts_375_ms() {
    assert_eq!(duration_ms(1, 160), 375);
}

#[test]
fn four_beats_at_160_bpm_last_1500_ms() {
    assert_eq!(duration_ms(4, 160), 1500);
}

#[test]
fn duration_multiplies_before_it_divides() {
    assert_eq!(duration_ms(4, 7), 34285);
    assert_eq!(duration_ms(3, 7), 25714);
    assert_eq!(duration_ms(1, 60001), 0);
}

#[test]
fn no_beats_take_no_time() {
    assert_eq!(duration_ms(0, 120), 0);
}

#[test]
fn duration_holds_the_largest_inputs() {
    assert_eq!(duration_ms(u32::MAX, 1), u32::MAX as u64 * 60000);
    assert_eq!(duration_ms(u32::MAX, u32::MAX), 60000);
    assert_eq!(MILLIS_PER_MINUTE, 60000);
}

#[test]
fn single_note_schedule_installs_sleeps_and_stops() {
    let mut sequencer = Sequencer::new(vec![single(BaseNote::C, 0, 1)], 160);
    let first = sequencer.next_action();
    match first {
        Action::Install(frequency) => {
            assert!((hertz(frequency) - 261.626).abs() < 0.01);
            assert_eq!(
                frequency,
                Frequency { mantissa: 4602565618743638, exponent: -44 }
            );
        }
        other => panic!("expected an install, got {:?}", other),
    }
    assert_eq!(sequencer.next_action(), Action::Sleep(375));
    assert_eq!(sequencer.next_action(), Action::Done);
}

#[test]
fn chord_installs_every_note_before_the_wait() {
    let notes = vec![
        Note::new(BaseNote::C, 0),
        Note::new(BaseNote::E, 0),
        Note::new(BaseNote::C, 1),
    ];
    let expected: Vec<Action> = notes
        .iter()
        .map(|n| Action::Install(get_note_frequency(n)))
        .collect();
    let mut sequencer = Sequencer::new(vec![Step { accord: Accord { notes }, beats: 4 }], 160);
    assert_eq!(sequencer.next_action(), expected[0]);
    assert_eq!(sequencer.next_action(), expected[1]);
    assert_eq!(sequencer.next_action(), expected[2]);
    assert_eq!(sequencer.next_action(), Action::Sleep(1500));
    assert_eq!(sequencer.next_action(), Action::Done);
}

#[test]
fn entries_are_played_in_schedule_order() {
    let schedule = vec![
        single(BaseNote::C, 0, 1),
        single(BaseNote::D, 0, 1),
        single(BaseNote::G, 0, 2),
    ];
    let mut sequencer = Sequencer::new(schedule, 120);
    let mut actions = Vec::new();
    loop {
        let action = sequencer.next_action();
        if action == Action::Done {
            break;
        }
        actions.push(action);
    }
    assert_eq!(
        actions,
        vec![
            Action::Install(get_note_frequency(&Note::new(BaseNote::C, 0))),
            Action::Sleep(500),
            Action::Install(get_note_frequency(&Note::new(BaseNote::D, 0))),
            Action::Sleep(500),
            Action::Install(get_note_frequency(&Note::new(BaseNote::G, 0))),
            Action::Sleep(1000),
        ]
    );
}

#[test]
fn empty_schedule_is_done_at_once() {
    let mut sequencer = Sequencer::new(Vec::new(), 160);
    assert_eq!(sequencer.next_action(), Action::Done);
    assert_eq!(sequencer.next_action(), Action::Done);
}

#[test]
fn done_repeats_after_the_last_entry() {
    let mut sequencer = Sequencer::new(vec![single(BaseNote::A, 0, 1)], 60);
    assert_eq!(
        sequencer.next_action(),
        Action::Install(Frequency { mantissa: 440 << 43, exponent: -43 })
    );
    assert_eq!(sequencer.next_action(), Action::Sleep(1000));
    for _ in 0..5 {
        assert_eq!(sequencer.next_action(), Action::Done);
    }
}

#[test]
fn entry_without_notes_is_a_rest() {
    let schedule = vec![
        Step { accord: Accord { notes: Vec::new() }, beats: 2 },
        single(BaseNote::E, 0, 1),
    ];
    let mut sequencer = Sequencer::new(schedule, 160);
    assert_eq!(sequencer.next_action(), Action::Sleep(750));
    assert_eq!(
        sequencer.next_action(),
        Action::Install(get_note_frequency(&Note::new(BaseNote::E, 0)))
    );
    assert_eq!(sequencer.next_action(), Action::Sleep(375));
    assert_eq!(sequencer.next_action(), Action::Done);
}
