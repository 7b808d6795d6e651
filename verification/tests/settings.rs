use meme_machine::detector::DetectionMode;
use meme_machine::level::Level;
use meme_machine::ports::{PortKind, PortRule};
use meme_machine::settings::{
    is_nsfw_category, PlaybackOrder, SelectedSound, Settings, SoundOrder, ThemePreference,
};

fn level(value: f32) -> Level {
    Level::from_bits(value.to_bits())
}

fn number(level: Level) -> f32 {
    f32::from_bits(level.bits)
}

fn sound(category: &str, filename: &str) -> SelectedSound {
    SelectedSound { category: category.to_string(), filename: filename.to_string() }
}

#[test]
fn defaults() {
    let settings = Settings::default();
    assert_eq!(number(settings.sensitivity), 0.15);
    assert_eq!(number(settings.microphone_sensitivity), 0.15);
    assert_eq!(number(settings.accelerometer_sensitivity), 0.15);
    assert_eq!(settings.cooldown_ms, 2000);
    assert_eq!(number(settings.volume), 0.8);
    assert!(settings.use_system_volume);
    assert!(!settings.enabled);
    assert_eq!(settings.detection_mode, DetectionMode::Microphone);
    assert_eq!(DetectionMode::default(), DetectionMode::Microphone);
    assert_eq!(settings.bundle, "");
    assert_eq!(settings.album_order, vec!["Trendy", "OG", "OG-Indian", "TV", "Moan", "Chodu CID"]);
    assert!(!settings.legacy_starter_library_removed);
    assert!(!settings.nsfw_enabled);
    assert_eq!(settings.theme, ThemePreference::default());
    assert_eq!(settings.playback_order, PlaybackOrder::default());
    assert_eq!(settings.port_rules.len(), 5);
    assert!(!settings.hide_support_prompt);
}

#[test]
fn hidden_categories() {
    for name in ["Moan", "moan", "CHODU CID", "After Dark", "nsfw"] {
        assert!(is_nsfw_category(name), "{}", name);
    }
    for name in ["", "Moans", "OG", "After  Dark"] {
        assert!(!is_nsfw_category(name), "{}", name);
    }
}

#[test]
fn validation_brings_values_into_range() {
    let mut settings = Settings::default();
    settings.sensitivity = level(7.0);
    settings.microphone_sensitivity = level(0.0);
    settings.accelerometer_sensitivity = level(0.001);
    settings.cooldown_ms = 100;
    settings.volume = level(-3.0);
    settings.validate();
    assert_eq!(number(settings.sensitivity), 1.0);
    assert_eq!(number(settings.microphone_sensitivity), 1.0);
    assert_eq!(number(settings.accelerometer_sensitivity), 0.01);
    assert_eq!(settings.cooldown_ms, 200);
    assert_eq!(number(settings.volume), 0.0);
    settings.cooldown_ms = 20000;
    settings.microphone_sensitivity = level(0.4);
    settings.validate();
    assert_eq!(settings.cooldown_ms, 10000);
    assert_eq!(number(settings.sensitivity), number(level(0.4)));
}

#[test]
fn validation_keeps_a_nan() {
    let mut settings = Settings::default();
    settings.volume = level(f32::NAN);
    settings.validate();
    assert!(number(settings.volume).is_nan());
}

#[test]
fn validation_hides_without_consent() {
    let mut settings = Settings::default();
    settings.selected_categories = vec!["OG".to_string(), "moan".to_string(), "TV".to_string()];
    settings.selected_sounds = vec![sound("NSFW", "a.mp3"), sound("OG", "b.mp3")];
    let mut consenting = settings.clone();
    consenting.nsfw_enabled = true;
    consenting.validate();
    assert_eq!(consenting.selected_categories.len(), 3);
    assert_eq!(consenting.selected_sounds.len(), 2);
    settings.validate();
    assert_eq!(settings.selected_categories, vec!["OG", "TV"]);
    assert_eq!(settings.selected_sounds.len(), 1);
    assert_eq!(settings.selected_sounds[0].filename, "b.mp3");
}

#[test]
fn validation_is_idempotent() {
    let mut settings = Settings::default();
    settings.sensitivity = level(-1.0);
    settings.microphone_sensitivity = level(-1.0);
    settings.port_rules = vec![PortRule::default_for(PortKind::Ethernet)];
    settings.validate();
    let once = format!("{:?}", settings);
    settings.validate();
    assert_eq!(format!("{:?}", settings), once);
    assert_eq!(number(settings.sensitivity), 0.01);
    assert_eq!(settings.port_rules.len(), 5);
}

#[test]
fn threshold_and_volume_follow_the_settings() {
    let mut settings = Settings::default();
    settings.microphone_sensitivity = level(0.2);
    settings.accelerometer_sensitivity = level(0.3);
    assert_eq!(number(settings.detection_threshold()), 0.2);
    settings.detection_mode = DetectionMode::Accelerometer;
    assert_eq!(number(settings.detection_threshold()), 0.3);
    assert_eq!(number(settings.output_volume()), 1.0);
    settings.use_system_volume = false;
    assert_eq!(number(settings.output_volume()), 0.8);
}

#[test]
fn clones_hold_the_same() {
    let mut settings = Settings::default();
    settings.sound_orders = vec![SoundOrder { category: "OG".to_string(), filenames: vec!["a".to_string()] }];
    assert_eq!(format!("{:?}", settings.clone()), format!("{:?}", settings));
}
