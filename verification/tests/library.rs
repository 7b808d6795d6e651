use meme_machine::level::Level;
use meme_machine::paths::{
    compare_bytes, insert_once, is_sound_file, list_sounds, PathPart, PathPrefix, SoundPath,
};
use meme_machine::player::{
    bundle_has_sounds, create_bundle, delete_bundle, files_for_selection, import_sounds,
    install_step, list_bundle_sounds, list_bundles, play, play_selection, rename_bundle, text_name,
    validate_bundle_name, BundleError, ImportAttempt, InstallStep, LibraryEntry, PickedFile,
};
use meme_machine::settings::PlaybackOrder;

fn path(text: &str) -> SoundPath {
    let mut parts = Vec::new();
    for (i, part) in text.split('/').enumerate() {
        if part.is_empty() && i == 0 {
            parts.push(PathPart::Root);
        } else {
            parts.push(PathPart::Name(part.as_bytes().to_vec()));
        }
    }
    SoundPath { parts }
}

fn spelled(path: &SoundPath) -> String {
    let mut text = String::new();
    for part in &path.parts {
        match part {
            PathPart::Name(name) => {
                text.push('/');
                text.push_str(&String::from_utf8_lossy(name));
            }
            _ => {}
        }
    }
    text
}

fn all_spelled(paths: &[SoundPath]) -> Vec<String> {
    paths.iter().map(spelled).collect()
}

fn message(verdict: Result<(), BundleError>) -> String {
    verdict.unwrap_err().message()
}

#[test]
fn bundle_names() {
    for name in ["OG", "OG-Indian", "my pack_2", "Ünïcode", "日本", "a"] {
        assert!(validate_bundle_name(name).is_ok(), "{}", name);
    }
    assert!(validate_bundle_name(&"x".repeat(50)).is_ok());
    assert!(matches!(validate_bundle_name(&"x".repeat(51)), Err(BundleError::NameLength)));
    assert!(matches!(validate_bundle_name(&"ä".repeat(26)), Err(BundleError::NameLength)));
    assert!(matches!(validate_bundle_name(""), Err(BundleError::NameLength)));
    for name in ["../x", "a/b", "a\\b", ".", "..", "c:", "a\0", "a\n", "tv & internet", "\u{2003}"] {
        assert!(matches!(validate_bundle_name(name), Err(BundleError::NameCharacters)), "{}", name);
    }
    assert_eq!(message(validate_bundle_name("")), "Bundle name must be 1-50 characters");
    assert_eq!(message(validate_bundle_name("?")), "Bundle name contains invalid characters");
}

#[test]
fn bundle_decisions() {
    assert!(create_bundle("OG", false).is_ok());
    assert_eq!(message(create_bundle("OG", true)), "Bundle 'OG' already exists");
    assert!(matches!(create_bundle("", true), Err(BundleError::NameLength)));
    assert!(delete_bundle("../any", true).is_ok());
    assert_eq!(message(delete_bundle("OG", false)), "Bundle 'OG' not found");
    assert!(rename_bundle("a", "b", true, false).is_ok());
    assert_eq!(message(rename_bundle("a", "b", false, true)), "Bundle 'a' not found");
    assert_eq!(message(rename_bundle("a", "b", true, true)), "Bundle 'b' already exists");
    assert!(matches!(rename_bundle("a", "b/", false, true), Err(BundleError::NameCharacters)));
}

#[test]
fn messages_of_the_system() {
    let reason = || "no space".to_string();
    assert_eq!(BundleError::CreateFailed(reason()).message(), "Failed to create bundle: no space");
    assert_eq!(BundleError::DeleteFailed(reason()).message(), "Failed to delete bundle: no space");
    assert_eq!(BundleError::RenameFailed(reason()).message(), "Failed to rename: no space");
    assert_eq!(BundleError::DirectoryFailed(reason()).message(), "Failed to create dir: no space");
    assert_eq!(BundleError::RemoveFailed(reason()).message(), "Failed to remove: no space");
}

#[test]
fn sounds_by_extension() {
    for name in ["a.wav", "a.MP3", "b.x.Ogg", "/d/c.flac", "..mp3"] {
        assert!(is_sound_file(&path(name)), "{}", name);
    }
    for name in ["a.txt", ".wav", "wav", "a.wave", "a.mp3/b", "a.", "a.wav "] {
        assert!(!is_sound_file(&path(name)), "{}", name);
    }
    assert!(!is_sound_file(&SoundPath { parts: vec![] }));
    assert!(!is_sound_file(&SoundPath { parts: vec![PathPart::Parent] }));
}

#[test]
fn paths_are_ordered_by_components() {
    assert_eq!(compare_bytes(b"ab", b"abc"), -1);
    assert_eq!(compare_bytes(b"b", b"abc"), 1);
    assert_eq!(compare_bytes(b"b", b"b"), 0);
    let mut texts = vec!["a/b", "a b", "a", "a.b/c", "/z", "a/b/c", "B"];
    let mut paths: Vec<SoundPath> = Vec::new();
    for text in &texts {
        insert_once(&mut paths, &path(text));
        insert_once(&mut paths, &path(text));
    }
    texts.sort_by(|a, b| std::path::Path::new(a).cmp(std::path::Path::new(b)));
    let expected: Vec<String> = texts.iter().map(|text| spelled(&path(text))).collect();
    assert_eq!(all_spelled(&paths), expected);
}

fn prefixed(prefix: PathPrefix) -> SoundPath {
    let name = PathPart::Name(b"a.mp3".to_vec());
    SoundPath { parts: vec![PathPart::Prefix(prefix), PathPart::Root, name] }
}

#[test]
fn drives_are_told_apart_without_case() {
    assert!(prefixed(PathPrefix::Disk(b'c')).same(&prefixed(PathPrefix::Disk(b'C'))));
    assert!(!prefixed(PathPrefix::Disk(b'c')).same(&prefixed(PathPrefix::Disk(b'D'))));
    assert_eq!(prefixed(PathPrefix::Disk(b'd')).compare(&prefixed(PathPrefix::Disk(b'C'))), 1);
    assert!(prefixed(PathPrefix::VerbatimDisk(b'z')).same(&prefixed(PathPrefix::VerbatimDisk(b'Z'))));
    let mut files = Vec::new();
    insert_once(&mut files, &prefixed(PathPrefix::Disk(b'c')));
    insert_once(&mut files, &prefixed(PathPrefix::Disk(b'C')));
    assert_eq!(files.len(), 1);
}

#[test]
fn prefixes_are_ordered_by_kind_then_by_their_parts() {
    let text = |text: &str| text.as_bytes().to_vec();
    let ordered = vec![
        prefixed(PathPrefix::Verbatim(text("z"))),
        prefixed(PathPrefix::VerbatimUnc(text("a"), text("z"))),
        prefixed(PathPrefix::VerbatimUnc(text("b"), text("a"))),
        prefixed(PathPrefix::VerbatimDisk(b'Z')),
        prefixed(PathPrefix::DeviceNs(text("A"))),
        prefixed(PathPrefix::DeviceNs(text("a"))),
        prefixed(PathPrefix::Unc(text("s"), text("a"))),
        prefixed(PathPrefix::Unc(text("s"), text("b"))),
        prefixed(PathPrefix::Disk(b'a')),
        path("/a.mp3"),
        path("a.mp3"),
    ];
    for (i, a) in ordered.iter().enumerate() {
        for (j, b) in ordered.iter().enumerate() {
            let expected = if i < j { -1 } else if i > j { 1 } else { 0 };
            assert_eq!(a.compare(b), expected, "{:?} {:?}", a, b);
        }
        assert!(a.same(&a.copy()));
    }
}

#[test]
fn listings_are_sorted() {
    let entries = vec![path("/s/b.mp3"), path("/s/notes.txt"), path("/s/a.wav"), path("/s/b.mp3")];
    assert_eq!(all_spelled(&list_sounds(&entries)), vec!["/s/a.wav", "/s/b.mp3", "/s/b.mp3"]);
    let broken = SoundPath { parts: vec![PathPart::Name(vec![0xff, b'.', b'm', b'p', b'3'])] };
    assert_eq!(text_name(&broken), None);
    let mut entries = entries;
    entries.push(broken);
    let sounds: Vec<String> = list_bundle_sounds(&entries).into_iter().map(|sound| sound.name).collect();
    assert_eq!(sounds, vec!["a.wav", "b.mp3", "b.mp3"]);
    assert_eq!(list_sounds(&entries).len(), 4);
}

#[test]
fn bundles_with_sounds() {
    assert!(bundle_has_sounds("OG", &vec![path("x"), path("a.mp3")]));
    assert!(!bundle_has_sounds("OG", &vec![path("x")]));
    assert!(!bundle_has_sounds(" \u{2003}", &vec![path("a.mp3")]));
}

#[test]
fn bundles_are_listed_by_name() {
    let entry = |name: &[u8], is_dir: bool, entries: Vec<SoundPath>| LibraryEntry {
        name: name.to_vec(),
        is_dir,
        entries,
    };
    let bundles = list_bundles(&vec![
        entry(b"TV", true, vec![path("a.mp3"), path("b.txt"), path("c.ogg")]),
        entry(b"file", false, vec![]),
        entry(b"OG", true, vec![]),
        entry(&[0xff], true, vec![path("a.mp3")]),
        entry("Ä".as_bytes(), true, vec![path("a.mp3")]),
        entry(b"a", true, vec![]),
    ]);
    let found: Vec<(String, usize)> = bundles.into_iter().map(|bundle| (bundle.name, bundle.count)).collect();
    assert_eq!(
        found,
        vec![
            ("OG".to_string(), 0),
            ("TV".to_string(), 2),
            ("a".to_string(), 0),
            ("Ä".to_string(), 1),
        ]
    );
}

#[test]
fn selections_hold_each_file_once() {
    let categories = vec![
        vec![path("/s/b/2.mp3"), path("/s/b/1.mp3"), path("/s/b/x.txt")],
        vec![path("/s/a/9.ogg")],
        vec![path("/s/b/1.mp3")],
    ];
    let picked = vec![
        PickedFile { path: path("/s/b/1.mp3"), is_file: true },
        PickedFile { path: path("/s/c/0.wav"), is_file: true },
        PickedFile { path: path("/s/c/gone.wav"), is_file: false },
        PickedFile { path: path("/s/c/readme"), is_file: true },
    ];
    let files = files_for_selection(&categories, &picked);
    let expected = vec!["/s/a/9.ogg", "/s/b/1.mp3", "/s/b/2.mp3", "/s/c/0.wav"];
    assert_eq!(all_spelled(&files), expected);
    let half = Level::from_bits(0.5f32.to_bits());
    let one = Level::from_bits(1.0f32.to_bits());
    let request = play_selection(&categories, &picked, PlaybackOrder::InOrder, half, one);
    assert_eq!(all_spelled(&request.files), expected);
    assert_eq!(request.playback_order, PlaybackOrder::InOrder);
    assert_eq!(request.volume, half);
    assert_eq!(request.intensity, one);
    let request = play(vec![path("b.mp3"), path("a.mp3"), path("c")], half, one);
    assert_eq!(all_spelled(&request.files), vec!["/a.mp3", "/b.mp3"]);
    assert_eq!(request.playback_order, PlaybackOrder::Random);
    assert!(files_for_selection(&vec![], &vec![]).is_empty());
}

#[test]
fn imports_and_installs() {
    let attempt = |filename: Option<&str>, copied: bool| ImportAttempt {
        filename: filename.map(|name| name.to_string()),
        copied,
    };
    assert_eq!(
        import_sounds(&vec![
            attempt(Some("a.mp3"), true),
            attempt(None, true),
            attempt(Some("b.mp3"), false),
            attempt(Some("c.mp3"), true),
        ]),
        vec!["a.mp3", "c.mp3"]
    );
    assert_eq!(install_step(true, true), InstallStep::Descend);
    assert_eq!(install_step(true, false), InstallStep::Descend);
    assert_eq!(install_step(false, false), InstallStep::Copy);
    assert_eq!(install_step(false, true), InstallStep::Skip);
}
