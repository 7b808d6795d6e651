use meme_machine::catalog::{any_bundle, playable, replacement, still_there, BundleContents};
use meme_machine::commands::{
    detector_command, follow_rename, forget_bundle, forget_legacy_albums, legacy_starter_albums,
    mentioned_bundles, sanitize_settings_for_available_bundles, save_settings, sound_for_port,
    test_selection, toggle_enabled, toggle_from_tray, tray_label, SelectionError,
};
use meme_machine::cooldown::Cooldown;
use meme_machine::detector::{DetectionMode, DetectorCmd};
use meme_machine::level::Level;
use meme_machine::paths::{PathPart, SoundPath};
use meme_machine::player::{BundleInfo, PickedFile};
use meme_machine::ports::{PortEvent, PortKind, PortRule};
use meme_machine::settings::{PlaybackOrder, SelectedSound, Settings, SoundOrder};

const SECOND: u64 = 1_000_000_000;

fn level(value: f32) -> Level {
    Level::from_bits(value.to_bits())
}

fn path(name: &str) -> SoundPath {
    SoundPath { parts: vec![PathPart::Name(name.as_bytes().to_vec())] }
}

fn contents(name: &str, files: &[&str]) -> BundleContents {
    BundleContents { name: name.to_string(), entries: files.iter().map(|file| path(file)).collect() }
}

fn bundle(name: &str, count: usize) -> BundleInfo {
    BundleInfo { name: name.to_string(), count }
}

fn sound(category: &str, filename: &str) -> SelectedSound {
    SelectedSound { category: category.to_string(), filename: filename.to_string() }
}

fn library() -> (Vec<BundleInfo>, Vec<BundleContents>) {
    (
        vec![bundle("Empty", 0), bundle("Moan", 1), bundle("OG", 2), bundle("TV", 1)],
        vec![
            contents("Empty", &["readme.txt"]),
            contents("Moan", &["m.mp3"]),
            contents("OG", &["a.mp3", "b.wav", "notes.txt"]),
            contents("TV", &["t.ogg"]),
        ],
    )
}

#[test]
fn the_catalog_tells_what_is_there() {
    let (_, catalog) = library();
    assert!(playable(&catalog, "OG"));
    assert!(!playable(&catalog, "Empty"));
    assert!(!playable(&catalog, "Gone"));
    assert!(!playable(&vec![contents(" ", &["a.mp3"])], " "));
    assert!(still_there(&catalog, &sound("OG", "a.mp3")));
    assert!(!still_there(&catalog, &sound("OG", "notes.txt")));
    assert!(!still_there(&catalog, &sound("TV", "a.mp3")));
    assert!(!still_there(&catalog, &sound("Gone", "a.mp3")));
}

#[test]
fn replacements_avoid_hidden_bundles() {
    let (bundles, _) = library();
    assert_eq!(replacement(&bundles), "OG");
    assert_eq!(any_bundle(&bundles), "Moan");
    assert_eq!(replacement(&vec![bundle("Moan", 1), bundle("OG", 0)]), "Moan");
    assert_eq!(replacement(&vec![bundle("OG", 0)]), "");
    assert_eq!(any_bundle(&vec![]), "");
}

fn selected() -> Settings {
    let mut settings = Settings::default();
    settings.enabled = true;
    settings.bundle = "Gone".to_string();
    settings.selected_categories =
        vec!["Gone".to_string(), "Moan".to_string(), "TV".to_string(), "OG".to_string()];
    settings.selected_sounds = vec![sound("OG", "z.mp3"), sound("Moan", "m.mp3"), sound("OG", "b.wav")];
    settings.port_rules[0].bundle = "Moan".to_string();
    settings.port_rules[1].bundle = "TV".to_string();
    settings
}

#[test]
fn sanitizing_takes_out_what_is_not_there() {
    let (bundles, catalog) = library();
    let mut settings = selected();
    sanitize_settings_for_available_bundles(&mut settings, &bundles, &catalog);
    assert_eq!(settings.selected_categories, vec!["TV", "OG"]);
    assert_eq!(settings.selected_sounds.len(), 1);
    assert_eq!(settings.selected_sounds[0].filename, "b.wav");
    assert_eq!(settings.bundle, "TV");
    assert!(settings.enabled);
    let rules: Vec<&str> = settings.port_rules.iter().map(|rule| rule.bundle.as_str()).collect();
    assert_eq!(rules, vec!["OG", "TV", "OG", "OG", "OG"]);
    let once = format!("{:?}", settings);
    sanitize_settings_for_available_bundles(&mut settings, &bundles, &catalog);
    assert_eq!(format!("{:?}", settings), once);
}

#[test]
fn sanitizing_with_consent_keeps_hidden_bundles() {
    let (bundles, catalog) = library();
    let mut settings = selected();
    settings.nsfw_enabled = true;
    sanitize_settings_for_available_bundles(&mut settings, &bundles, &catalog);
    assert_eq!(settings.selected_categories, vec!["Moan", "TV", "OG"]);
    assert_eq!(settings.bundle, "Moan");
    assert_eq!(settings.port_rules[0].bundle, "Moan");
}

#[test]
fn the_leading_bundle() {
    let (bundles, catalog) = library();
    let mut settings = selected();
    settings.selected_categories = vec![];
    sanitize_settings_for_available_bundles(&mut settings, &bundles, &catalog);
    assert_eq!(settings.bundle, "OG");
    settings.selected_sounds = vec![];
    settings.bundle = "TV".to_string();
    sanitize_settings_for_available_bundles(&mut settings, &bundles, &catalog);
    assert_eq!(settings.bundle, "TV");
    settings.bundle = "Gone".to_string();
    sanitize_settings_for_available_bundles(&mut settings, &bundles, &catalog);
    assert_eq!(settings.bundle, "OG");
}

#[test]
fn detection_needs_something_to_play() {
    let mut settings = selected();
    sanitize_settings_for_available_bundles(&mut settings, &vec![], &vec![]);
    assert!(!settings.enabled);
    assert_eq!(settings.bundle, "");
    assert!(!toggle_enabled(&mut settings, &vec![], &vec![]));
    let (bundles, catalog) = library();
    assert!(toggle_enabled(&mut settings, &bundles, &catalog));
    let on = format!("{:?}", settings);
    assert!(!toggle_enabled(&mut settings, &bundles, &catalog));
    assert!(toggle_enabled(&mut settings, &bundles, &catalog));
    assert_eq!(format!("{:?}", settings), on);
}

#[test]
fn saving_and_the_tray() {
    let (bundles, catalog) = library();
    let mut settings = selected();
    settings.cooldown_ms = 1;
    settings.port_rules = vec![];
    save_settings(&mut settings, &bundles, &catalog);
    assert_eq!(settings.cooldown_ms, 200);
    assert_eq!(settings.port_rules.len(), 5);
    assert_eq!(settings.port_rules[4].bundle, "OG");
    let saved = format!("{:?}", settings);
    save_settings(&mut settings, &bundles, &catalog);
    assert_eq!(format!("{:?}", settings), saved);
    settings.cooldown_ms = 1;
    assert!(!toggle_from_tray(&mut settings, &bundles, &catalog));
    assert_eq!(settings.cooldown_ms, 200);
    assert_eq!(tray_label(true), "Pause");
    assert_eq!(tray_label(false), "Resume");
}

#[test]
fn commands_to_the_detector() {
    let mut settings = Settings::default();
    assert_eq!(detector_command(&settings), DetectorCmd::Stop);
    settings.enabled = true;
    settings.detection_mode = DetectionMode::Accelerometer;
    settings.accelerometer_sensitivity = level(0.3);
    assert_eq!(
        detector_command(&settings),
        DetectorCmd::Start {
            mode: DetectionMode::Accelerometer,
            threshold: level(0.3),
            cooldown_ms: 2000
        }
    );
}

#[test]
fn settings_mention_their_bundles() {
    let mut mentioned = mentioned_bundles(&selected());
    mentioned.sort();
    mentioned.dedup();
    assert_eq!(mentioned, vec!["Gone", "Moan", "OG", "TV", "default"]);
}

#[test]
fn selections_are_tried_at_full_intensity() {
    let mut settings = Settings::default();
    settings.use_system_volume = false;
    settings.playback_order = PlaybackOrder::InOrder;
    let request = test_selection(&settings, &vec![vec![path("b.mp3"), path("a.mp3")]], &vec![]).unwrap();
    assert_eq!(request.files.len(), 2);
    assert_eq!(request.volume, level(0.8));
    assert_eq!(request.intensity, level(1.0));
    assert_eq!(request.playback_order, PlaybackOrder::InOrder);
    let gone = PickedFile { path: path("a.mp3"), is_file: false };
    let error = test_selection(&settings, &vec![vec![path("a.txt")]], &vec![gone]).unwrap_err();
    assert_eq!(error, SelectionError::Nothing);
    assert_eq!(error.message(), "Choose a category or at least one sound first.");
}

#[test]
fn deleted_and_renamed_bundles_are_followed() {
    let mut settings = Settings::default();
    settings.bundle = "OG".to_string();
    settings.port_rules[2].bundle = "OG".to_string();
    settings.port_rules[3].bundle = "TV".to_string();
    settings.cooldown_ms = 1;
    follow_rename(&mut settings, "OG", "Classics");
    assert_eq!(settings.bundle, "Classics");
    assert_eq!(settings.port_rules[2].bundle, "Classics");
    assert_eq!(settings.port_rules[3].bundle, "TV");
    assert_eq!(settings.cooldown_ms, 200);
    forget_bundle(&mut settings, "Classics", &vec![bundle("Empty", 0), bundle("Moan", 1), bundle("TV", 1)]);
    assert_eq!(settings.bundle, "Moan");
    assert_eq!(settings.port_rules[2].bundle, "Moan");
    forget_bundle(&mut settings, "Moan", &vec![]);
    assert_eq!(settings.bundle, "");
}

#[test]
fn the_first_starter_library_is_forgotten_once() {
    let mut settings = Settings::default();
    settings.bundle = "Bollywood".to_string();
    settings.selected_categories = vec!["OG Memes".to_string(), "OG".to_string(), "og memes".to_string()];
    settings.selected_sounds = vec![sound("TV & Internet", "a.mp3"), sound("TV", "t.ogg")];
    let order = |category: &str| SoundOrder { category: category.to_string(), filenames: vec![] };
    settings.sound_orders = vec![order("Hollywood"), order("OG")];
    settings.album_order = vec![];
    assert!(forget_legacy_albums(&mut settings));
    assert_eq!(settings.bundle, "");
    assert_eq!(settings.selected_categories, vec!["OG", "og memes"]);
    assert_eq!(settings.selected_sounds.len(), 1);
    assert_eq!(settings.sound_orders.len(), 1);
    assert_eq!(settings.album_order.len(), 6);
    assert!(settings.legacy_starter_library_removed);
    settings.bundle = "Bollywood".to_string();
    assert!(!forget_legacy_albums(&mut settings));
    assert_eq!(settings.bundle, "Bollywood");
    assert_eq!(
        legacy_starter_albums(),
        vec!["OG Memes", "Bollywood", "Hollywood", "TV & Internet", "After Dark"]
    );
}

#[test]
fn ports_sound_by_their_rules() {
    let mut settings = Settings::default();
    settings.cooldown_ms = 200;
    settings.port_rules = vec![PortRule {
        kind: PortKind::UsbStorage,
        bundle: "OG".to_string(),
        on_connect: true,
        on_disconnect: false,
    }];
    let mut cooldown = Cooldown::new(0);
    let plug = |kind: PortKind, connected: bool| PortEvent { kind, connected };
    assert!(sound_for_port(&mut cooldown, &settings, plug(PortKind::Charging, true), 0).is_none());
    assert!(sound_for_port(&mut cooldown, &settings, plug(PortKind::UsbStorage, false), 0).is_none());
    let sound = sound_for_port(&mut cooldown, &settings, plug(PortKind::UsbStorage, true), SECOND).unwrap();
    assert_eq!(sound.bundle, "OG");
    assert_eq!(sound.volume, level(1.0));
    assert_eq!(sound.intensity, level(0.9));
    let soon = SECOND + 1_499_999_999;
    assert!(sound_for_port(&mut cooldown, &settings, plug(PortKind::UsbStorage, true), soon).is_none());
    assert!(sound_for_port(&mut cooldown, &settings, plug(PortKind::UsbStorage, true), soon + 1).is_some());
    settings.cooldown_ms = 3000;
    let later = soon + 1 + 2 * SECOND;
    assert!(sound_for_port(&mut cooldown, &settings, plug(PortKind::UsbStorage, true), later).is_none());
    settings.port_rules[0].bundle = String::new();
    assert!(sound_for_port(&mut cooldown, &settings, plug(PortKind::UsbStorage, true), 99 * SECOND).is_none());
}
