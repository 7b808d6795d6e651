use meme_machine::accelerometer::{
    GREATEST_MOTION, GREATEST_REST, LEAST_AVERAGE, LEAST_INTENSITY, LEAST_MOTION, LEAST_RATIO,
    LEAST_REST, USUAL_SCALE,
};
use meme_machine::commands::PORT_INTENSITY;
use meme_machine::level::Level;
use meme_machine::microphone::{LEAST_CREST, LEAST_LOUDNESS, LEAST_LOUD_BOUND, LEAST_NOISE};
use meme_machine::settings::{LEAST_SENSITIVITY, ONE, USUAL_SENSITIVITY, USUAL_VOLUME, ZERO};

fn level(value: f32) -> Level {
    Level::from_bits(value.to_bits())
}

const SAMPLES: [f32; 14] = [
    f32::NEG_INFINITY,
    f32::MIN,
    -1.5,
    -f32::MIN_POSITIVE,
    -0.0,
    0.0,
    1e-45,
    0.01,
    0.5,
    1.0,
    1.5,
    f32::MAX,
    f32::INFINITY,
    f32::NAN,
];

#[test]
fn constants_spell_their_numbers() {
    assert_eq!(LEAST_SENSITIVITY, 0.01f32.to_bits());
    assert_eq!(USUAL_SENSITIVITY, 0.15f32.to_bits());
    assert_eq!(USUAL_VOLUME, 0.8f32.to_bits());
    assert_eq!(ONE, 1.0f32.to_bits());
    assert_eq!(ZERO, 0.0f32.to_bits());
    assert_eq!(LEAST_NOISE, 0.005f32.to_bits());
    assert_eq!(LEAST_LOUD_BOUND, (0.005f32 * 3.0).to_bits());
    assert_eq!(LEAST_LOUD_BOUND, 0.015f32.to_bits());
    assert_eq!(LEAST_CREST, 2.5f32.to_bits());
    assert_eq!(LEAST_LOUDNESS, 0.0001f32.to_bits());
    assert_eq!(LEAST_RATIO, 5.0f32.to_bits());
    assert_eq!(LEAST_AVERAGE, 0.000_001f32.to_bits());
    assert_eq!(LEAST_MOTION, 0.04f32.to_bits());
    assert_eq!(GREATEST_MOTION, 0.30f32.to_bits());
    assert_eq!(LEAST_INTENSITY, 0.15f32.to_bits());
    assert_eq!(LEAST_REST, 0.7f32.to_bits());
    assert_eq!(GREATEST_REST, 1.5f32.to_bits());
    assert_eq!(USUAL_SCALE, 0.009_576f32.to_bits());
    assert_eq!(PORT_INTENSITY, 0.9f32.to_bits());
}

#[test]
fn levels_compare_as_numbers() {
    for a in SAMPLES {
        for b in SAMPLES {
            assert_eq!(level(a).lt(level(b)), a < b, "{} < {}", a, b);
            assert_eq!(level(a).le(level(b)), a <= b, "{} <= {}", a, b);
        }
        assert_eq!(level(a).is_nan(), a.is_nan());
    }
}

#[test]
fn levels_clamp_as_numbers() {
    for a in SAMPLES {
        let clamped = level(a).clamp(level(0.01), level(1.0));
        assert_eq!(clamped.bits, a.clamp(0.01, 1.0).to_bits());
        assert_eq!(clamped.clamp(level(0.01), level(1.0)), clamped);
    }
}

#[test]
fn greater_and_lesser_levels() {
    for a in SAMPLES {
        for b in SAMPLES {
            let greater = f32::from_bits(level(a).max(level(b)).bits);
            let lesser = f32::from_bits(level(a).min(level(b)).bits);
            assert!(greater == a.max(b) || (a.is_nan() && b.is_nan() && greater.is_nan()));
            assert!(lesser == a.min(b) || (a.is_nan() && b.is_nan() && lesser.is_nan()));
        }
    }
}
