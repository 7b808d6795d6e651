use meme_machine::paths::{PathPart, SoundPath};
use meme_machine::playback::PlayQueue;
use meme_machine::settings::PlaybackOrder;

fn path(name: &str) -> SoundPath {
    SoundPath { parts: vec![PathPart::Name(name.as_bytes().to_vec())] }
}

fn name(path: SoundPath) -> String {
    match path.parts.into_iter().last() {
        Some(PathPart::Name(name)) => String::from_utf8(name).unwrap(),
        _ => String::new(),
    }
}

fn files(count: usize) -> Vec<SoundPath> {
    (0..count).map(|i| path(&format!("{:03}.mp3", i))).collect()
}

fn names(files: Vec<SoundPath>) -> Vec<String> {
    files.into_iter().map(name).collect()
}

#[test]
fn nothing_to_play() {
    let mut queue = PlayQueue::new();
    assert!(queue.next(vec![], PlaybackOrder::Random).is_none());
    assert!(queue.next(vec![], PlaybackOrder::InOrder).is_none());
    assert_eq!(queue.index, 0);
}

#[test]
fn a_playlist_goes_round() {
    let mut queue = PlayQueue::new();
    let mut played = Vec::new();
    for _ in 0..7 {
        played.push(name(queue.next(files(3), PlaybackOrder::InOrder).unwrap()));
    }
    assert_eq!(played, vec!["000.mp3", "001.mp3", "002.mp3", "000.mp3", "001.mp3", "002.mp3", "000.mp3"]);
}

#[test]
fn a_shuffle_bag_plays_everything_before_it_repeats() {
    let mut queue = PlayQueue::new();
    let mut rounds: Vec<Vec<String>> = Vec::new();
    for _ in 0..3 {
        let round: Vec<String> = (0..60)
            .map(|_| name(queue.next(files(60), PlaybackOrder::Random).unwrap()))
            .collect();
        let mut sorted = round.clone();
        sorted.sort();
        assert_eq!(sorted, names(files(60)));
        rounds.push(round);
    }
    // Sixty files come out in their own order once in sixty factorial times.
    assert!(rounds.iter().all(|round| *round != names(files(60))));
    assert!(rounds[0] != rounds[1]);
}

#[test]
fn another_selection_starts_anew() {
    let mut queue = PlayQueue::new();
    queue.next(files(3), PlaybackOrder::InOrder);
    assert!(!queue.needs_refill(&files(3), PlaybackOrder::InOrder));
    assert!(queue.needs_refill(&files(3), PlaybackOrder::Random));
    assert!(queue.needs_refill(&files(2), PlaybackOrder::InOrder));
    assert_eq!(name(queue.next(files(2), PlaybackOrder::InOrder).unwrap()), "000.mp3");
    assert_eq!(name(queue.next(files(3), PlaybackOrder::InOrder).unwrap()), "000.mp3");
    assert_eq!(name(queue.next(files(3), PlaybackOrder::InOrder).unwrap()), "001.mp3");
}

#[test]
fn a_bag_is_emptied_in_its_order() {
    let mut queue = PlayQueue::new();
    let bag = vec![path("b"), path("a")];
    queue.refill(bag, vec![path("a"), path("b")], PlaybackOrder::Random);
    assert_eq!(name(queue.take()), "b");
    let both = || vec![path("a"), path("b")];
    assert!(!queue.needs_refill(&both(), PlaybackOrder::Random));
    assert_eq!(name(queue.next(both(), PlaybackOrder::Random).unwrap()), "a");
    assert!(queue.needs_refill(&both(), PlaybackOrder::Random));
}

#[test]
fn requests_for_nothing_disturb_no_round() {
    let mut queue = PlayQueue::new();
    let mut played = Vec::new();
    for i in 0..7 {
        let order = if i % 2 == 0 { PlaybackOrder::Random } else { PlaybackOrder::InOrder };
        assert!(queue.next(vec![], order).is_none());
        played.push(name(queue.next(files(3), PlaybackOrder::InOrder).unwrap()));
    }
    assert_eq!(played[..4], ["000.mp3", "001.mp3", "002.mp3", "000.mp3"]);
    let mut queue = PlayQueue::new();
    let mut round: Vec<String> = (0..20)
        .map(|_| {
            queue.next(vec![], PlaybackOrder::InOrder);
            name(queue.next(files(20), PlaybackOrder::Random).unwrap())
        })
        .collect();
    round.sort();
    assert_eq!(round, names(files(20)));
}
