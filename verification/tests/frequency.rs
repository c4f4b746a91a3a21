use fundsp::math::pow;
use live_synth::frequency::{get_note_frequency, Frequency, ANCHOR_MANTISSA, FRACTION_BITS};
use live_synth::note::{BaseNote, Note};

const PITCH_CLASSES: [BaseNote; 12] = [
    BaseNote::C,
    BaseNote::Cis,
    BaseNote::D,
    BaseNote::Dis,
    BaseNote::E,
    BaseNote::F,
    BaseNote::Fis,
    BaseNote::G,
    BaseNote::Gis,
    BaseNote::A,
    BaseNote::Ais,
    BaseNote::H,
];

fn hertz(frequency: Frequency) -> f64 {
    frequency.mantissa as f64 * 2.0_f64.powi(frequency.exponent as i32)
}

fn formula(pitch_class: i32, octave: i32) -> f64 {
    let semitone = (pitch_class + 12 * octave) as f64;
    440.0 * pow(2.0, (semitone - 9.0) / 12.0)
}

#[test]
fn test_get_note_frequency_c() {
    let value = hertz(get_note_frequency(&Note {
        note: BaseNote::C,
        octave: 0,
    }));
    assert!((value - 261.626).abs() < 0.01, "{} is not 261.626", value);
}

#[test]
fn test_get_note_frequency_a() {
    assert_eq!(
        hertz(get_note_frequency(&Note {
            note: BaseNote::A,
            octave: 0
        })),
        440.0
    );
}

#[test]
fn anchor_is_held_exactly() {
    let a = get_note_frequency(&Note::base(BaseNote::A));
    assert_eq!(a, Frequency { mantissa: 440 << 43, exponent: -43 });
    assert_eq!(a.mantissa, ANCHOR_MANTISSA);
    assert_eq!(a.exponent, -FRACTION_BITS);
}

#[test]
fn middle_c_has_the_tabled_mantissa() {
    let c = get_note_frequency(&Note::new(BaseNote::C, 0));
    assert_eq!(c, Frequency { mantissa: 4602565618743638, exponent: -44 });
}

#[test]
fn every_pitch_class_of_the_reference_octave_is_exact() {
    let expected: [(u64, i64); 12] = [
        (4602565618743638, -44),
        (4876248412425839, -44),
        (5166205231893280, -44),
        (5473403781076835, -44),
        (5798869306577531, -44),
        (6143688019331772, -44),
        (6509010719739368, -44),
        (6896056638352895, -44),
        (7306117504946318, -44),
        (3870280929771520, -43),
        (4100419809895504, -43),
        (4344243459964044, -43),
    ];
    for (note, (mantissa, exponent)) in PITCH_CLASSES.iter().zip(expected.iter()) {
        let f = get_note_frequency(&Note::base(*note));
        assert_eq!(f.mantissa, *mantissa);
        assert_eq!(f.exponent, *exponent);
    }
}

#[test]
fn frequencies_match_published_note_table() {
    let table: [(BaseNote, i32, f64); 8] = [
        (BaseNote::C, 0, 261.626),
        (BaseNote::D, 0, 293.665),
        (BaseNote::E, 0, 329.628),
        (BaseNote::G, 0, 391.995),
        (BaseNote::H, 0, 493.883),
        (BaseNote::C, 1, 523.251),
        (BaseNote::A, -1, 220.0),
        (BaseNote::A, -4, 27.5),
    ];
    for (note, octave, expected) in table.iter() {
        let value = hertz(get_note_frequency(&Note::new(*note, *octave)));
        assert!((value - expected).abs() < 0.01, "{} is not {}", value, expected);
    }
}

#[test]
fn frequencies_follow_the_equal_tempered_formula() {
    for octave in -6..=6 {
        for (pitch_class, note) in PITCH_CLASSES.iter().enumerate() {
            let value = hertz(get_note_frequency(&Note::new(*note, octave)));
            let exact = formula(pitch_class as i32, octave);
            assert!(
                ((value - exact) / exact).abs() < 1e-13,
                "{} is not {}",
                value,
                exact
            );
        }
    }
}

#[test]
fn mantissa_stays_within_one_octave() {
    for octave in [-40, -1, 0, 1, 40] {
        for note in PITCH_CLASSES.iter() {
            let f = get_note_frequency(&Note::new(*note, octave));
            assert!(ANCHOR_MANTISSA <= f.mantissa && f.mantissa < 2 * ANCHOR_MANTISSA);
        }
    }
}

#[test]
fn one_octave_up_doubles_the_frequency() {
    for octave in -5..5 {
        for note in PITCH_CLASSES.iter() {
            let lo = get_note_frequency(&Note::new(*note, octave));
            let hi = get_note_frequency(&Note::new(*note, octave + 1));
            assert_eq!(hi.mantissa, lo.mantissa);
            assert_eq!(hi.exponent, lo.exponent + 1);
            assert_eq!(hertz(hi), 2.0 * hertz(lo));
        }
    }
    let a1 = get_note_frequency(&Note::new(BaseNote::A, 1));
    assert_eq!(hertz(a1), 880.0);
}

#[test]
fn pitch_classes_rise_within_an_octave() {
    for octave in [-3, 0, 2] {
        for pair in PITCH_CLASSES.windows(2) {
            let lo = hertz(get_note_frequency(&Note::new(pair[0], octave)));
            let hi = hertz(get_note_frequency(&Note::new(pair[1], octave)));
            assert!(lo < hi, "{} is not below {}", lo, hi);
        }
    }
}

#[test]
fn extreme_octaves_resolve_without_overflow() {
    let top = get_note_frequency(&Note::new(BaseNote::H, i32::MAX));
    assert_eq!(top.mantissa, 4344243459964044);
    assert_eq!(top.exponent, i32::MAX as i64 - 43);
    let bottom = get_note_frequency(&Note::new(BaseNote::C, i32::MIN));
    assert_eq!(bottom.mantissa, 4602565618743638);
    assert_eq!(bottom.exponent, i32::MIN as i64 - 44);
}
