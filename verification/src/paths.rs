//! Paths of sound files: their order, and which of them are sounds.

use vstd::prelude::*;

use crate::lists::{
    is_total_order, lemma_filter_multiset, lemma_filter_step, lemma_insert_multiset,
    lemma_lexicographic_is_total, lexicographic,
};
use crate::text::{ascii_lower, chars_of};

verus! {

/// What stands before the root of a Windows path: the parts of its prefix.
#[derive(Debug)]
pub enum PathPrefix {
    /// `\\?\name`
    Verbatim(Vec<u8>),
    /// `\\?\UNC\server\share`
    VerbatimUnc(Vec<u8>, Vec<u8>),
    /// `\\?\C:`
    VerbatimDisk(u8),
    /// `\\.\name`
    DeviceNs(Vec<u8>),
    /// `\\server\share`
    Unc(Vec<u8>, Vec<u8>),
    /// `C:`
    Disk(u8),
}

/// One component of a path. Names are the bytes of the operating system's own
/// encoding, since not every name is text.
#[derive(Debug)]
pub enum PathPart {
    Prefix(PathPrefix),
    Root,
    Current,
    Parent,
    Name(Vec<u8>),
}

/// A component: the rank of its class, its name if it has one, and for a prefix
/// with a server the share on it.
#[verifier::ext_equal]
pub struct PartView {
    pub rank: int,
    pub name: Seq<u8>,
    pub share: Seq<u8>,
}

/// The rank of the components that are names.
pub open spec fn name_rank() -> int {
    9
}

/// A drive letter, in upper case: drives are told apart without regard to case.
pub open spec fn drive_letter(letter: u8) -> u8 {
    if 97 <= letter <= 122 {
        (letter - 32) as u8
    } else {
        letter
    }
}

impl View for PathPrefix {
    type V = PartView;

    open spec fn view(&self) -> PartView {
        match self {
            PathPrefix::Verbatim(name) => PartView { rank: 0, name: name@, share: Seq::empty() },
            PathPrefix::VerbatimUnc(server, share) => PartView {
                rank: 1,
                name: server@,
                share: share@,
            },
            PathPrefix::VerbatimDisk(letter) => PartView {
                rank: 2,
                name: seq![drive_letter(*letter)],
                share: Seq::empty(),
            },
            PathPrefix::DeviceNs(name) => PartView { rank: 3, name: name@, share: Seq::empty() },
            PathPrefix::Unc(server, share) => PartView {
                rank: 4,
                name: server@,
                share: share@,
            },
            PathPrefix::Disk(letter) => PartView {
                rank: 5,
                name: seq![drive_letter(*letter)],
                share: Seq::empty(),
            },
        }
    }
}

impl View for PathPart {
    type V = PartView;

    open spec fn view(&self) -> PartView {
        match self {
            PathPart::Prefix(prefix) => prefix@,
            PathPart::Root => PartView { rank: 6, name: Seq::empty(), share: Seq::empty() },
            PathPart::Current => PartView { rank: 7, name: Seq::empty(), share: Seq::empty() },
            PathPart::Parent => PartView { rank: 8, name: Seq::empty(), share: Seq::empty() },
            PathPart::Name(name) => PartView {
                rank: name_rank(),
                name: name@,
                share: Seq::empty(),
            },
        }
    }
}

/// A path, by its components.
#[derive(Debug)]
pub struct SoundPath {
    pub parts: Vec<PathPart>,
}

pub type PathView = Seq<PartView>;

impl View for SoundPath {
    type V = PathView;

    open spec fn view(&self) -> PathView {
        self.parts@.map_values(|part: PathPart| part@)
    }
}

pub open spec fn path_views(paths: Seq<SoundPath>) -> Seq<PathView> {
    paths.map_values(|path: SoundPath| path@)
}

// ── Order ────────────────────────────────────────────────────────────

pub open spec fn byte_order() -> spec_fn(u8, u8) -> int {
    |a: u8, b: u8|
        if a < b {
            -1
        } else if a > b {
            1
        } else {
            0
        }
}

/// The order of byte strings.
pub open spec fn bytes_order(a: Seq<u8>, b: Seq<u8>) -> int {
    lexicographic(byte_order(), a, b)
}

/// The order of components: by class, then by name, then by share.
pub open spec fn part_order() -> spec_fn(PartView, PartView) -> int {
    |a: PartView, b: PartView|
        if a.rank < b.rank {
            -1
        } else if a.rank > b.rank {
            1
        } else if bytes_order(a.name, b.name) != 0 {
            bytes_order(a.name, b.name)
        } else {
            bytes_order(a.share, b.share)
        }
}

/// The order of paths: component by component.
pub open spec fn path_order(a: PathView, b: PathView) -> int {
    lexicographic(part_order(), a, b)
}

/// Every path stands before or level with every later one.
pub open spec fn ascending(paths: Seq<PathView>) -> bool {
    forall|i: int, j: int|
        0 <= i < j < paths.len() ==> path_order(#[trigger] paths[i], #[trigger] paths[j]) <= 0
}

/// Every path stands before every later one.
pub open spec fn strictly_ascending(paths: Seq<PathView>) -> bool {
    forall|i: int, j: int|
        0 <= i < j < paths.len() ==> path_order(#[trigger] paths[i], #[trigger] paths[j]) < 0
}

/// Byte strings are totally ordered.
pub proof fn lemma_bytes_are_ordered()
    ensures
        is_total_order(|a: Seq<u8>, b: Seq<u8>| bytes_order(a, b)),
{
    lemma_lexicographic_is_total(byte_order());
    let lifted = |a: Seq<u8>, b: Seq<u8>| lexicographic(byte_order(), a, b);
    assert(lifted =~= (|a: Seq<u8>, b: Seq<u8>| bytes_order(a, b)));
}

/// Paths are totally ordered.
pub proof fn lemma_paths_are_ordered()
    ensures
        forall|a: PathView, b: PathView| #[trigger] path_order(a, b) == 0 <==> a == b,
        forall|a: PathView, b: PathView| #[trigger] path_order(a, b) < 0 <==> path_order(b, a) > 0,
        forall|a: PathView, b: PathView, c: PathView|
            #[trigger] path_order(a, b) <= 0 && #[trigger] path_order(b, c) <= 0 ==> path_order(
                a,
                c,
            ) <= 0,
{
    lemma_bytes_are_ordered();
    let bytes = |a: Seq<u8>, b: Seq<u8>| bytes_order(a, b);
    assert(is_total_order(part_order())) by {
        assert forall|a: PartView, b: PartView| #[trigger] part_order()(a, b) == 0 <==> a == b by {
            assert(bytes(a.name, b.name) == 0 <==> a.name == b.name);
            assert(bytes(a.share, b.share) == 0 <==> a.share == b.share);
        }
        assert forall|a: PartView, b: PartView|
            #[trigger] part_order()(a, b) < 0 <==> part_order()(b, a) > 0 by {
            assert(bytes(a.name, b.name) < 0 <==> bytes(b.name, a.name) > 0);
            assert(bytes(b.name, a.name) < 0 <==> bytes(a.name, b.name) > 0);
            assert(bytes(a.share, b.share) < 0 <==> bytes(b.share, a.share) > 0);
        }
        assert forall|a: PartView, b: PartView, c: PartView|
            #[trigger] part_order()(a, b) <= 0 && #[trigger] part_order()(b, c) <= 0 implies part_order()(
            a,
            c,
        ) <= 0 by {
            assert(bytes(a.name, b.name) <= 0 && bytes(b.name, c.name) <= 0 ==> bytes(
                a.name,
                c.name,
            ) <= 0);
            assert(bytes(b.name, a.name) <= 0 && bytes(a.name, c.name) <= 0 ==> bytes(
                b.name,
                c.name,
            ) <= 0);
            assert(bytes(a.name, b.name) < 0 <==> bytes(b.name, a.name) > 0);
            assert(bytes(b.name, c.name) < 0 <==> bytes(c.name, b.name) > 0);
            assert(bytes(a.name, b.name) == 0 <==> a.name == b.name);
            assert(bytes(b.name, c.name) == 0 <==> b.name == c.name);
            assert(bytes(a.name, c.name) == 0 <==> a.name == c.name);
            assert(bytes(a.share, b.share) <= 0 && bytes(b.share, c.share) <= 0 ==> bytes(
                a.share,
                c.share,
            ) <= 0);
        }
    }
    lemma_lexicographic_is_total(part_order());
    let lifted = |a: PathView, b: PathView| lexicographic(part_order(), a, b);
    assert forall|a: PathView, b: PathView| #[trigger] path_order(a, b) == 0 <==> a == b by {
        assert(lifted(a, b) == path_order(a, b));
    }
    assert forall|a: PathView, b: PathView|
        #[trigger] path_order(a, b) < 0 <==> path_order(b, a) > 0 by {
        assert(lifted(a, b) == path_order(a, b));
        assert(lifted(b, a) == path_order(b, a));
    }
    assert forall|a: PathView, b: PathView, c: PathView|
        #[trigger] path_order(a, b) <= 0 && #[trigger] path_order(b, c) <= 0 implies path_order(
        a,
        c,
    ) <= 0 by {
        assert(lifted(a, b) <= 0);
        assert(lifted(b, c) <= 0);
        assert(lifted(a, c) <= 0);
    }
}

/// Orders two byte strings.
pub fn compare_bytes(a: &[u8], b: &[u8]) -> (order: i8)
    ensures
        order == bytes_order(a@, b@),
{
    let mut i: usize = 0;
    assert(a@.skip(0) == a@);
    assert(b@.skip(0) == b@);
    while i < a.len() && i < b.len()
        invariant
            i <= a@.len(),
            i <= b@.len(),
            bytes_order(a@, b@) == bytes_order(a@.skip(i as int), b@.skip(i as int)),
        decreases a.len() - i,
    {
        assert(a@.skip(i as int)[0] == a@[i as int]);
        assert(b@.skip(i as int)[0] == b@[i as int]);
        if a[i] < b[i] {
            return -1;
        }
        if a[i] > b[i] {
            return 1;
        }
        assert(a@.skip(i as int).drop_first() == a@.skip(i + 1));
        assert(b@.skip(i as int).drop_first() == b@.skip(i + 1));
        i += 1;
    }
    if i < b.len() {
        -1
    } else if i < a.len() {
        1
    } else {
        0
    }
}

impl PathPart {
    fn rank(&self) -> (rank: u8)
        ensures
            rank == self@.rank,
    {
        match self {
            PathPart::Prefix(PathPrefix::Verbatim(_)) => 0,
            PathPart::Prefix(PathPrefix::VerbatimUnc(_, _)) => 1,
            PathPart::Prefix(PathPrefix::VerbatimDisk(_)) => 2,
            PathPart::Prefix(PathPrefix::DeviceNs(_)) => 3,
            PathPart::Prefix(PathPrefix::Unc(_, _)) => 4,
            PathPart::Prefix(PathPrefix::Disk(_)) => 5,
            PathPart::Root => 6,
            PathPart::Current => 7,
            PathPart::Parent => 8,
            PathPart::Name(_) => 9,
        }
    }
}

fn upper_drive(letter: u8) -> (upper: u8)
    ensures
        upper == drive_letter(letter),
{
    if 97 <= letter && letter <= 122 {
        letter - 32
    } else {
        letter
    }
}

fn compare_drives(a: u8, b: u8) -> (order: i8)
    ensures
        order == bytes_order(seq![drive_letter(a)], seq![drive_letter(b)]),
{
    let a: [u8; 1] = [upper_drive(a)];
    let b: [u8; 1] = [upper_drive(b)];
    assert(a@ == seq![a@[0]]);
    assert(b@ == seq![b@[0]]);
    compare_bytes(&a, &b)
}

fn compare_shares(
    server_a: &Vec<u8>,
    share_a: &Vec<u8>,
    server_b: &Vec<u8>,
    share_b: &Vec<u8>,
) -> (order: i8)
    ensures
        order == if bytes_order(server_a@, server_b@) != 0 {
            bytes_order(server_a@, server_b@)
        } else {
            bytes_order(share_a@, share_b@)
        },
{
    let order: i8 = compare_bytes(server_a.as_slice(), server_b.as_slice());
    if order != 0 {
        order
    } else {
        compare_bytes(share_a.as_slice(), share_b.as_slice())
    }
}

fn compare_prefixes(a: &PathPrefix, b: &PathPrefix) -> (order: i8)
    requires
        a@.rank == b@.rank,
    ensures
        order == part_order()(a@, b@),
{
    match (a, b) {
        (PathPrefix::Verbatim(a), PathPrefix::Verbatim(b)) => compare_bytes(
            a.as_slice(),
            b.as_slice(),
        ),
        (PathPrefix::VerbatimUnc(server_a, share_a), PathPrefix::VerbatimUnc(server_b, share_b)) =>
        compare_shares(server_a, share_a, server_b, share_b),
        (PathPrefix::VerbatimDisk(a), PathPrefix::VerbatimDisk(b)) => compare_drives(*a, *b),
        (PathPrefix::DeviceNs(a), PathPrefix::DeviceNs(b)) => compare_bytes(
            a.as_slice(),
            b.as_slice(),
        ),
        (PathPrefix::Unc(server_a, share_a), PathPrefix::Unc(server_b, share_b)) => compare_shares(
            server_a,
            share_a,
            server_b,
            share_b,
        ),
        (PathPrefix::Disk(a), PathPrefix::Disk(b)) => compare_drives(*a, *b),
        _ => 0,
    }
}

fn compare_parts(a: &PathPart, b: &PathPart) -> (order: i8)
    ensures
        order == part_order()(a@, b@),
{
    let rank_a: u8 = a.rank();
    let rank_b: u8 = b.rank();
    if rank_a < rank_b {
        return -1;
    }
    if rank_a > rank_b {
        return 1;
    }
    match (a, b) {
        (PathPart::Prefix(a), PathPart::Prefix(b)) => compare_prefixes(a, b),
        (PathPart::Name(a), PathPart::Name(b)) => compare_bytes(a.as_slice(), b.as_slice()),
        _ => 0,
    }
}

impl PathPrefix {
    fn copy(&self) -> (copy: PathPrefix)
        ensures
            copy@ == self@,
    {
        match self {
            PathPrefix::Verbatim(name) => PathPrefix::Verbatim(name.clone()),
            PathPrefix::VerbatimUnc(server, share) => PathPrefix::VerbatimUnc(
                server.clone(),
                share.clone(),
            ),
            PathPrefix::VerbatimDisk(letter) => PathPrefix::VerbatimDisk(*letter),
            PathPrefix::DeviceNs(name) => PathPrefix::DeviceNs(name.clone()),
            PathPrefix::Unc(server, share) => PathPrefix::Unc(server.clone(), share.clone()),
            PathPrefix::Disk(letter) => PathPrefix::Disk(*letter),
        }
    }
}

impl SoundPath {
    /// Orders two paths.
    pub fn compare(&self, other: &SoundPath) -> (order: i8)
        ensures
            order == path_order(self@, other@),
    {
        let a = &self.parts;
        let b = &other.parts;
        let ghost view_a = self@;
        let ghost view_b = other@;
        let mut i: usize = 0;
        assert(view_a.skip(0) == view_a);
        assert(view_b.skip(0) == view_b);
        while i < a.len() && i < b.len()
            invariant
                i <= a@.len() == view_a.len(),
                i <= b@.len() == view_b.len(),
                a == self.parts,
                b == other.parts,
                view_a == self@,
                view_b == other@,
                path_order(view_a, view_b) == path_order(
                    view_a.skip(i as int),
                    view_b.skip(i as int),
                ),
            decreases a.len() - i,
        {
            assert(view_a.skip(i as int)[0] == a@[i as int]@);
            assert(view_b.skip(i as int)[0] == b@[i as int]@);
            let order: i8 = compare_parts(&a[i], &b[i]);
            if order != 0 {
                return order;
            }
            assert(view_a.skip(i as int).drop_first() == view_a.skip(i + 1));
            assert(view_b.skip(i as int).drop_first() == view_b.skip(i + 1));
            i += 1;
        }
        if i < b.len() {
            -1
        } else if i < a.len() {
            1
        } else {
            0
        }
    }

    /// Whether two paths are one.
    pub fn same(&self, other: &SoundPath) -> (same: bool)
        ensures
            same == (self@ == other@),
    {
        proof {
            lemma_paths_are_ordered();
        }
        self.compare(other) == 0
    }

    /// A copy of the path.
    pub fn copy(&self) -> (copy: SoundPath)
        ensures
            copy@ == self@,
    {
        let mut parts: Vec<PathPart> = Vec::new();
        let mut i: usize = 0;
        while i < self.parts.len()
            invariant
                i <= self.parts@.len(),
                parts@.len() == i,
                forall|j: int| 0 <= j < i ==> (#[trigger] parts@[j])@ == self.parts@[j]@,
            decreases self.parts.len() - i,
        {
            let part = match &self.parts[i] {
                PathPart::Prefix(prefix) => PathPart::Prefix(prefix.copy()),
                PathPart::Root => PathPart::Root,
                PathPart::Current => PathPart::Current,
                PathPart::Parent => PathPart::Parent,
                PathPart::Name(name) => PathPart::Name(name.clone()),
            };
            assert(part@.name == self.parts@[i as int]@.name);
            parts.push(part);
            i += 1;
        }
        let copy = SoundPath { parts };
        assert(copy@ == self@);
        copy
    }
}

// ── Sounds ───────────────────────────────────────────────────────────

/// Where the last dot of a name stands; before the name where it has none.
pub open spec fn last_dot(name: Seq<u8>) -> int
    decreases name.len(),
{
    if name.len() == 0 {
        -1
    } else if name.last() == 46u8 {
        name.len() - 1
    } else {
        last_dot(name.drop_last())
    }
}

/// The bytes spell the (ASCII, lower case) word, in any case.
pub open spec fn spells(bytes: Seq<u8>, word: Seq<char>) -> bool {
    bytes.len() == word.len() && forall|i: int|
        0 <= i < bytes.len() ==> bytes[i] < 128 && ascii_lower(#[trigger] bytes[i] as char)
            == word[i]
}

/// The name ends in an extension of a sound format. What begins with its only dot
/// has no extension.
pub open spec fn is_sound_name(name: Seq<u8>) -> bool {
    let dot = last_dot(name);
    let extension = name.skip(dot + 1);
    dot > 0 && (spells(extension, "wav"@) || spells(extension, "mp3"@) || spells(
        extension,
        "ogg"@,
    ) || spells(extension, "flac"@))
}

/// The path's last component is the name of a sound.
pub open spec fn is_sound(path: PathView) -> bool {
    path.len() > 0 && path.last().rank == name_rank() && is_sound_name(path.last().name)
}

fn rest_spells(name: &Vec<u8>, from: usize, word: &str) -> (same: bool)
    requires
        from <= name@.len(),
    ensures
        same == spells(name@.skip(from as int), word@),
{
    let chars = chars_of(word);
    let ghost rest = name@.skip(from as int);
    if name.len() - from != chars.len() {
        return false;
    }
    let mut i: usize = 0;
    while i < chars.len()
        invariant
            i <= chars@.len() == rest.len(),
            chars@ == word@,
            rest == name@.skip(from as int),
            from + rest.len() == name@.len() <= usize::MAX,
            forall|j: int|
                0 <= j < i ==> rest[j] < 128 && ascii_lower(#[trigger] rest[j] as char)
                    == word@[j],
        decreases chars.len() - i,
    {
        let byte: u8 = name[from + i];
        assert(byte == rest[i as int]);
        if byte >= 128 {
            return false;
        }
        let lower: u8 = if 65 <= byte && byte <= 90 {
            byte + 32
        } else {
            byte
        };
        assert(ascii_lower(byte as char) == lower as char);
        if lower as char != chars[i] {
            return false;
        }
        i += 1;
    }
    true
}

fn names_sound(name: &Vec<u8>) -> (sound: bool)
    ensures
        sound == is_sound_name(name@),
{
    let mut end: usize = name.len();
    assert(name@.take(name@.len() as int) == name@);
    while end > 0 && name[end - 1] != 46
        invariant
            end <= name@.len(),
            last_dot(name@) == last_dot(name@.take(end as int)),
        decreases end,
    {
        assert(name@.take(end as int).drop_last() == name@.take(end - 1));
        assert(name@.take(end as int).last() == name@[end - 1]);
        end -= 1;
    }
    assert(last_dot(name@) == end - 1) by {
        if end > 0 {
            assert(name@.take(end as int).last() == 46u8);
        }
    }
    end > 1 && (rest_spells(name, end, "wav") || rest_spells(name, end, "mp3") || rest_spells(
        name,
        end,
        "ogg",
    ) || rest_spells(name, end, "flac"))
}

/// Whether a path is that of a sound.
pub fn is_sound_file(path: &SoundPath) -> (sound: bool)
    ensures
        sound == is_sound(path@),
{
    if path.parts.len() == 0 {
        return false;
    }
    let last: usize = path.parts.len() - 1;
    assert(path@.last() == path.parts@[last as int]@);
    match &path.parts[last] {
        PathPart::Name(name) => names_sound(name),
        _ => false,
    }
}

// ── Sorting ──────────────────────────────────────────────────────────

/// The place of a path among ascending ones: behind all that do not stand after
/// it.
fn place_of(sorted: &Vec<SoundPath>, path: &SoundPath) -> (place: usize)
    requires
        ascending(path_views(sorted@)),
    ensures
        place <= sorted@.len(),
        forall|i: int| 0 <= i < place ==> path_order((#[trigger] sorted@[i])@, path@) <= 0,
        forall|i: int| place <= i < sorted@.len() ==> path_order((#[trigger] sorted@[i])@, path@) > 0,
{
    proof {
        lemma_paths_are_ordered();
    }
    let ghost views = path_views(sorted@);
    let mut place: usize = sorted.len();
    while place > 0 && sorted[place - 1].compare(path) > 0
        invariant
            place <= sorted@.len(),
            forall|i: int|
                place <= i < sorted@.len() ==> path_order((#[trigger] sorted@[i])@, path@) > 0,
        decreases place,
    {
        place -= 1;
    }
    assert forall|i: int| 0 <= i < place implies path_order((#[trigger] sorted@[i])@, path@) <= 0 by {
        assert(views[i] == sorted@[i]@);
        assert(views[place - 1] == sorted@[place - 1]@);
        assert(path_order(sorted@[place - 1]@, path@) <= 0);
        if i < place - 1 {
            assert(path_order(views[i], views[place - 1]) <= 0);
        }
    }
    place
}

proof fn lemma_path_pair(a: PathView, b: PathView)
    ensures
        path_order(a, b) == 0 <==> a == b,
        path_order(a, b) < 0 <==> path_order(b, a) > 0,
{
    lemma_paths_are_ordered();
}

proof fn lemma_insert_keeps_order(before: Seq<PathView>, place: int, path: PathView)
    requires
        0 <= place <= before.len(),
        ascending(before),
        forall|i: int| 0 <= i < place ==> path_order(#[trigger] before[i], path) <= 0,
        forall|i: int| place <= i < before.len() ==> path_order(#[trigger] before[i], path) > 0,
    ensures
        ascending(before.insert(place, path)),
        strictly_ascending(before) && !before.contains(path) ==> strictly_ascending(
            before.insert(place, path),
        ),
{
    let after = before.insert(place, path);
    let strict = strictly_ascending(before) && !before.contains(path);
    before.insert_ensures(place, path);
    assert forall|i: int, j: int| 0 <= i < j < after.len() implies path_order(
        #[trigger] after[i],
        #[trigger] after[j],
    ) <= 0 && (strict ==> path_order(after[i], after[j]) < 0) by {
        if i == place {
            assert(after[j] == before[j - 1]);
            lemma_path_pair(path, before[j - 1]);
            lemma_path_pair(before[j - 1], path);
        } else if j == place {
            assert(after[i] == before[i]);
            lemma_path_pair(before[i], path);
        } else {
            let a = if i < place { i } else { i - 1 };
            let b = if j < place { j } else { j - 1 };
            assert(after[i] == before[a] && after[j] == before[b]);
        }
    }
}

/// Puts a path in its place among ascending ones.
fn insert_sorted(sorted: &mut Vec<SoundPath>, path: SoundPath)
    requires
        ascending(path_views(old(sorted)@)),
    ensures
        ascending(path_views(final(sorted)@)),
        path_views(final(sorted)@).to_multiset() == path_views(old(sorted)@).to_multiset().insert(
            path@,
        ),
        strictly_ascending(path_views(old(sorted)@)) && !path_views(old(sorted)@).contains(path@)
            ==> strictly_ascending(path_views(final(sorted)@)),
{
    let place: usize = place_of(sorted, &path);
    proof {
        let before = path_views(sorted@);
        assert forall|i: int| 0 <= i < place implies path_order(#[trigger] before[i], path@) <= 0 by {
            assert(before[i] == sorted@[i]@);
        }
        assert forall|i: int| place <= i < before.len() implies path_order(
            #[trigger] before[i],
            path@,
        ) > 0 by {
            assert(before[i] == sorted@[i]@);
        }
        lemma_insert_keeps_order(before, place as int, path@);
        lemma_insert_multiset(before, place as int, path@);
        assert(path_views(sorted@.insert(place as int, path)) == before.insert(
            place as int,
            path@,
        ));
    }
    sorted.insert(place, path);
}

/// The list is in ascending order and holds, with their repetitions, exactly the
/// sounds among the entries.
pub open spec fn is_listing(listing: Seq<PathView>, entries: Seq<PathView>) -> bool {
    ascending(listing) && listing.to_multiset() == entries.filter(
        |path: PathView| is_sound(path),
    ).to_multiset()
}

/// The sounds among the entries of a directory, in order.
pub fn list_sounds(entries: &Vec<SoundPath>) -> (sounds: Vec<SoundPath>)
    ensures
        is_listing(path_views(sounds@), path_views(entries@)),
{
    broadcast use vstd::seq_lib::group_to_multiset_ensures;

    let ghost all = path_views(entries@);
    let ghost keep = |path: PathView| is_sound(path);
    let mut sounds: Vec<SoundPath> = Vec::new();
    let mut i: usize = 0;
    assert(all.take(0).filter(keep) == path_views(sounds@)) by {
        reveal(Seq::filter);
    }
    while i < entries.len()
        invariant
            i <= entries@.len(),
            all == path_views(entries@),
            keep == (|path: PathView| is_sound(path)),
            ascending(path_views(sounds@)),
            path_views(sounds@).to_multiset() == all.take(i as int).filter(keep).to_multiset(),
        decreases entries.len() - i,
    {
        broadcast use vstd::seq_lib::group_to_multiset_ensures;

        proof {
            lemma_filter_step(all, keep, i as int);
        }
        if is_sound_file(&entries[i]) {
            insert_sorted(&mut sounds, entries[i].copy());
        }
        i += 1;
    }
    assert(all.take(all.len() as int) == all);
    sounds
}

/// Adds a path to a strictly ascending list that may hold it already.
pub fn insert_once(sorted: &mut Vec<SoundPath>, path: &SoundPath)
    requires
        strictly_ascending(path_views(old(sorted)@)),
    ensures
        strictly_ascending(path_views(final(sorted)@)),
        forall|other: PathView| #[trigger]
            path_views(final(sorted)@).contains(other) <==> other == path@ || path_views(
                old(sorted)@,
            ).contains(other),
{
    broadcast use vstd::seq_lib::group_to_multiset_ensures;

    let ghost before = path_views(sorted@);
    let mut i: usize = 0;
    while i < sorted.len()
        invariant
            i <= sorted@.len(),
            *sorted == *old(sorted),
            before == path_views(sorted@),
            strictly_ascending(before),
            forall|j: int| 0 <= j < i ==> (#[trigger] before[j]) != path@,
        decreases sorted.len() - i,
    {
        assert(before[i as int] == sorted@[i as int]@);
        if sorted[i].same(path) {
            assert(before.contains(path@));
            return ;
        }
        i += 1;
    }
    assert(!before.contains(path@));
    insert_sorted(sorted, path.copy());
    assert forall|other: PathView| #[trigger]
        path_views(sorted@).contains(other) <==> other == path@ || before.contains(other) by {
        assert(path_views(sorted@).to_multiset().count(other) > 0 <==> path_views(sorted@).contains(
            other,
        ));
        assert(before.to_multiset().count(other) > 0 <==> before.contains(other));
    }
}

// ── Laws ─────────────────────────────────────────────────────────────

proof fn lemma_ascending_unique(a: Seq<PathView>, b: Seq<PathView>)
    requires
        ascending(a),
        ascending(b),
        a.to_multiset() == b.to_multiset(),
    ensures
        a == b,
{
    let before = |x: PathView, y: PathView| path_order(x, y) <= 0;
    lemma_paths_are_ordered();
    assert(vstd::relations::total_ordering(before)) by {
        assert(forall|x: PathView, y: PathView|
            #[trigger] before(x, y) && #[trigger] before(y, x) ==> x == y) by {
            assert forall|x: PathView, y: PathView|
                #[trigger] before(x, y) && #[trigger] before(y, x) implies x == y by {
                lemma_path_pair(x, y);
                lemma_path_pair(y, x);
            }
        }
        assert(forall|x: PathView, y: PathView| #[trigger] before(x, y) || before(y, x)) by {
            assert forall|x: PathView, y: PathView| #[trigger] before(x, y) || before(y, x) by {
                lemma_path_pair(y, x);
            }
        }
    }
    vstd::seq_lib::lemma_sorted_unique(a, b, before);
}

/// A directory has one listing: what is listed, and in which order, does not
/// depend on the order in which the entries were read.
pub proof fn law_listing_is_unique(
    a: Seq<PathView>,
    b: Seq<PathView>,
    entries: Seq<PathView>,
    reordered: Seq<PathView>,
)
    requires
        is_listing(a, entries),
        is_listing(b, reordered),
        entries.to_multiset() == reordered.to_multiset(),
    ensures
        a == b,
{
    lemma_filter_multiset(entries, |path: PathView| is_sound(path));
    lemma_filter_multiset(reordered, |path: PathView| is_sound(path));
    lemma_ascending_unique(a, b);
}

/// A strictly ascending list is determined by the paths that it holds.
pub proof fn law_strictly_ascending_is_unique(a: Seq<PathView>, b: Seq<PathView>)
    requires
        strictly_ascending(a),
        strictly_ascending(b),
        forall|path: PathView| #[trigger] a.contains(path) <==> b.contains(path),
    ensures
        a == b,
{
    broadcast use vstd::seq_lib::group_to_multiset_ensures;

    lemma_no_duplicates(a);
    lemma_no_duplicates(b);
    a.lemma_multiset_has_no_duplicates();
    b.lemma_multiset_has_no_duplicates();
    assert forall|path: PathView| a.to_multiset().count(path) == b.to_multiset().count(path) by {
        assert(a.contains(path) <==> a.to_multiset().count(path) > 0);
        assert(b.contains(path) <==> b.to_multiset().count(path) > 0);
    }
    assert(a.to_multiset() =~= b.to_multiset());
    lemma_ascending_unique(a, b);
}

/// A strictly ascending list repeats nothing.
pub proof fn lemma_no_duplicates(paths: Seq<PathView>)
    requires
        strictly_ascending(paths),
    ensures
        paths.no_duplicates(),
{
    assert forall|i: int, j: int| 0 <= i < paths.len() && 0 <= j < paths.len() && i != j implies paths[i]
        != paths[j] by {
        lemma_path_pair(paths[i], paths[j]);
        lemma_path_pair(paths[j], paths[i]);
        if i < j {
            assert(path_order(paths[i], paths[j]) < 0);
        } else {
            assert(path_order(paths[j], paths[i]) < 0);
        }
    }
}

/// Listing finds exactly the sounds.
pub proof fn law_listing_holds_the_sounds(
    listing: Seq<PathView>,
    entries: Seq<PathView>,
    path: PathView,
)
    requires
        is_listing(listing, entries),
    ensures
        listing.contains(path) <==> entries.contains(path) && is_sound(path),
{
    broadcast use {
        vstd::seq_lib::group_to_multiset_ensures,
        vstd::seq_lib::group_filter_ensures,
    };

    let keep = |path: PathView| is_sound(path);
    let sounds = entries.filter(keep);
    assert(listing.contains(path) <==> listing.to_multiset().count(path) > 0);
    assert(sounds.contains(path) <==> sounds.to_multiset().count(path) > 0);
    if entries.contains(path) && is_sound(path) {
        let i = choose|i: int| 0 <= i < entries.len() && entries[i] == path;
        assert(sounds.contains(entries[i]));
    }
    if sounds.contains(path) {
        let i = choose|i: int| 0 <= i < sounds.len() && sounds[i] == path;
        assert(keep(sounds[i]));
        entries.lemma_filter_contains_rev(keep, path);
    }
}

/// The first byte that differs decides; a byte string stands before those that it
/// begins.
pub proof fn law_bytes_are_ordered_by_the_first_difference(a: Seq<u8>, b: Seq<u8>, at: int)
    requires
        0 <= at <= a.len(),
        at <= b.len(),
        forall|i: int| 0 <= i < at ==> #[trigger] a[i] == b[i],
    ensures
        at == a.len() && at < b.len() ==> bytes_order(a, b) < 0,
        at < a.len() && at == b.len() ==> bytes_order(a, b) > 0,
        at == a.len() && at == b.len() ==> bytes_order(a, b) == 0,
        at < a.len() && at < b.len() && a[at] < b[at] ==> bytes_order(a, b) < 0,
        at < a.len() && at < b.len() && a[at] > b[at] ==> bytes_order(a, b) > 0,
    decreases at,
{
    if at > 0 {
        assert(a[0] == b[0]);
        assert forall|i: int| 0 <= i < at - 1 implies #[trigger] a.drop_first()[i]
            == b.drop_first()[i] by {
            assert(a[i + 1] == b[i + 1]);
        }
        law_bytes_are_ordered_by_the_first_difference(a.drop_first(), b.drop_first(), at - 1);
    }
}

/// The first component that differs decides, and a path stands before those that it
/// begins. Of two components, that of the lower class stands first; in one class the
/// names decide, and with one name the shares.
pub proof fn law_paths_are_ordered_by_the_first_difference(a: PathView, b: PathView, at: int)
    requires
        0 <= at <= a.len(),
        at <= b.len(),
        forall|i: int| 0 <= i < at ==> #[trigger] a[i] == b[i],
    ensures
        at == a.len() && at < b.len() ==> path_order(a, b) < 0,
        at < a.len() && at == b.len() ==> path_order(a, b) > 0,
        at == a.len() && at == b.len() ==> path_order(a, b) == 0,
        at < a.len() && at < b.len() ==> {
            let x = a[at];
            let y = b[at];
            &&& x.rank < y.rank ==> path_order(a, b) < 0
            &&& x.rank > y.rank ==> path_order(a, b) > 0
            &&& x.rank == y.rank && bytes_order(x.name, y.name) < 0 ==> path_order(a, b) < 0
            &&& x.rank == y.rank && bytes_order(x.name, y.name) > 0 ==> path_order(a, b) > 0
            &&& x.rank == y.rank && x.name == y.name && bytes_order(x.share, y.share) < 0
                ==> path_order(a, b) < 0
            &&& x.rank == y.rank && x.name == y.name && bytes_order(x.share, y.share) > 0
                ==> path_order(a, b) > 0
        },
    decreases at,
{
    if at > 0 {
        assert(a[0] == b[0]);
        law_bytes_are_ordered_by_the_first_difference(a[0].name, b[0].name, a[0].name.len() as int);
        law_bytes_are_ordered_by_the_first_difference(
            a[0].share,
            b[0].share,
            a[0].share.len() as int,
        );
        assert(part_order()(a[0], b[0]) == 0);
        assert forall|i: int| 0 <= i < at - 1 implies #[trigger] a.drop_first()[i]
            == b.drop_first()[i] by {
            assert(a[i + 1] == b[i + 1]);
        }
        law_paths_are_ordered_by_the_first_difference(a.drop_first(), b.drop_first(), at - 1);
    } else if a.len() > 0 && b.len() > 0 {
        if a[0].name == b[0].name {
            law_bytes_are_ordered_by_the_first_difference(
                a[0].name,
                b[0].name,
                a[0].name.len() as int,
            );
        }
    }
}

/// The classes of components in their order: prefixes before the root, then the
/// current and the parent directory, then names.
pub proof fn law_classes_of_components(prefix: PathPrefix, bytes: Vec<u8>, name: Vec<u8>)
    ensures
        PathPart::Prefix(prefix)@.rank < PathPart::Root@.rank,
        PathPart::Root@.rank < PathPart::Current@.rank,
        PathPart::Current@.rank < PathPart::Parent@.rank,
        PathPart::Parent@.rank < PathPart::Name(name)@.rank,
        PathPart::Name(name)@.rank == name_rank() && PathPart::Name(name)@.name == name@,
        PathPart::Name(bytes)@ == PathPart::Name(name)@ <==> bytes@ == name@,
{
    if bytes@ == name@ {
        assert(PathPart::Name(bytes)@ =~= PathPart::Name(name)@);
    }
}

/// A drive is the same in either case of its letter, and no other drive is.
pub proof fn law_drives_ignore_case(a: u8, b: u8)
    ensures
        PathPrefix::Disk(a)@ == PathPrefix::Disk(b)@ <==> a == b || (97 <= a <= 122 && b == a - 32)
            || (97 <= b <= 122 && a == b - 32),
        PathPrefix::VerbatimDisk(a)@ == PathPrefix::VerbatimDisk(b)@ <==> a == b || (97 <= a <= 122
            && b == a - 32) || (97 <= b <= 122 && a == b - 32),
        PathPrefix::Disk(a)@ != PathPrefix::VerbatimDisk(b)@,
{
    assert(seq![drive_letter(a)][0] == drive_letter(a));
    assert(seq![drive_letter(b)][0] == drive_letter(b));
    if drive_letter(a) == drive_letter(b) {
        assert(seq![drive_letter(a)] =~= seq![drive_letter(b)]);
    }
}

proof fn lemma_last_dot(stem: Seq<u8>, extension: Seq<u8>)
    requires
        forall|i: int| 0 <= i < extension.len() ==> #[trigger] extension[i] != 46u8,
    ensures
        last_dot(stem.push(46u8) + extension) == stem.len(),
    decreases extension.len(),
{
    let name = stem.push(46u8) + extension;
    if extension.len() == 0 {
        assert(name.last() == 46u8);
    } else {
        let rest = extension.drop_last();
        assert(name.last() == extension[extension.len() - 1]);
        assert(name.drop_last() == stem.push(46u8) + rest);
        assert forall|i: int| 0 <= i < rest.len() implies #[trigger] rest[i] != 46u8 by {
            assert(rest[i] == extension[i]);
        }
        lemma_last_dot(stem, rest);
    }
}

proof fn lemma_no_dot(name: Seq<u8>)
    requires
        forall|i: int| 0 <= i < name.len() ==> #[trigger] name[i] != 46u8,
    ensures
        last_dot(name) == -1,
    decreases name.len(),
{
    if name.len() > 0 {
        assert(name[name.len() - 1] != 46u8);
        assert forall|i: int| 0 <= i < name.drop_last().len() implies #[trigger] name.drop_last()[i]
            != 46u8 by {
            assert(name.drop_last()[i] == name[i]);
        }
        lemma_no_dot(name.drop_last());
    }
}

/// A name is that of a sound just where something stands before its last dot and one
/// of four extensions, in whatever case, behind it.
pub proof fn law_which_names_are_sounds(stem: Seq<u8>, extension: Seq<u8>)
    requires
        forall|i: int| 0 <= i < extension.len() ==> #[trigger] extension[i] != 46u8,
    ensures
        is_sound_name(stem.push(46u8) + extension) <==> stem.len() > 0 && (spells(extension, "wav"@)
            || spells(extension, "mp3"@) || spells(extension, "ogg"@) || spells(
            extension,
            "flac"@,
        )),
        !is_sound_name(extension),
{
    lemma_last_dot(stem, extension);
    lemma_no_dot(extension);
    assert((stem.push(46u8) + extension).skip(stem.len() as int + 1) == extension);
}

/// Bytes spell a word of small letters and digits just where each is that letter,
/// small or capital, or that digit.
pub proof fn law_what_spells_a_word(bytes: Seq<u8>, word: Seq<char>)
    requires
        forall|i: int|
            0 <= i < word.len() ==> 'a' <= #[trigger] word[i] <= 'z' || '0' <= word[i] <= '9',
    ensures
        spells(bytes, word) <==> bytes.len() == word.len() && forall|i: int|
            0 <= i < bytes.len() ==> #[trigger] bytes[i] == word[i] as u32 || ('a' <= word[i]
                && bytes[i] + 32 == word[i] as u32),
{
    if spells(bytes, word) {
        assert forall|i: int| 0 <= i < bytes.len() implies #[trigger] bytes[i] == word[i] as u32 || (
        'a' <= word[i] && bytes[i] + 32 == word[i] as u32) by {
            assert(ascii_lower(bytes[i] as char) == word[i]);
        }
    }
    if bytes.len() == word.len() && forall|i: int|
        0 <= i < bytes.len() ==> #[trigger] bytes[i] == word[i] as u32 || ('a' <= word[i] && bytes[i]
            + 32 == word[i] as u32) {
        assert forall|i: int| 0 <= i < bytes.len() implies bytes[i] < 128 && ascii_lower(
            #[trigger] bytes[i] as char,
        ) == word[i] by {
            assert('a' <= word[i] <= 'z' || '0' <= word[i] <= '9');
            assert(bytes[i] == word[i] as u32 || ('a' <= word[i] && bytes[i] + 32 == word[i] as u32));
        }
    }
}

/// A path is that of a sound just where it ends in a name that is.
pub proof fn law_which_paths_are_sounds(path: PathView)
    ensures
        is_sound(path) <==> path.len() > 0 && path[path.len() - 1].rank == name_rank()
            && is_sound_name(path[path.len() - 1].name),
{
}

/// A listing goes up: no path stands after a later one. It holds every sound as often
/// as the directory has it, and nothing that is no sound.
pub proof fn law_listings_go_up(
    listing: Seq<PathView>,
    entries: Seq<PathView>,
    path: PathView,
    i: int,
    j: int,
)
    requires
        is_listing(listing, entries),
    ensures
        0 <= i < j < listing.len() ==> path_order(listing[i], listing[j]) <= 0,
        is_sound(path) ==> listing.to_multiset().count(path) == entries.to_multiset().count(path),
        !is_sound(path) ==> listing.to_multiset().count(path) == 0,
{
    broadcast use vstd::seq_lib::group_to_multiset_ensures;

    let keep = |path: PathView| is_sound(path);
    lemma_filter_multiset(entries, keep);
    if 0 <= i < j < listing.len() {
        assert(ascending(listing));
        assert(path_order(listing[i], listing[j]) <= 0);
    }
}

/// The files of a selection go up, each by a step.
pub proof fn law_selections_go_up(paths: Seq<PathView>, i: int, j: int)
    requires
        strictly_ascending(paths),
        0 <= i < j < paths.len(),
    ensures
        path_order(paths[i], paths[j]) < 0,
        paths[i] != paths[j],
{
    lemma_no_duplicates(paths);
}

/// The classes of prefixes in their order, each with the names that it is made of.
pub proof fn law_classes_of_prefixes(a: Vec<u8>, b: Vec<u8>, letter: u8)
    ensures
        PathPrefix::Verbatim(a)@.rank < PathPrefix::VerbatimUnc(a, b)@.rank,
        PathPrefix::VerbatimUnc(a, b)@.rank < PathPrefix::VerbatimDisk(letter)@.rank,
        PathPrefix::VerbatimDisk(letter)@.rank < PathPrefix::DeviceNs(a)@.rank,
        PathPrefix::DeviceNs(a)@.rank < PathPrefix::Unc(a, b)@.rank,
        PathPrefix::Unc(a, b)@.rank < PathPrefix::Disk(letter)@.rank,
        PathPrefix::Verbatim(a)@.name == a@ && PathPrefix::DeviceNs(a)@.name == a@,
        PathPrefix::VerbatimUnc(a, b)@.name == a@ && PathPrefix::VerbatimUnc(a, b)@.share == b@,
        PathPrefix::Unc(a, b)@.name == a@ && PathPrefix::Unc(a, b)@.share == b@,
        PathPart::Prefix(PathPrefix::Unc(a, b))@ == PathPrefix::Unc(a, b)@,
{
}

/// A path is seen component by component, and a list of paths path by path.
pub proof fn law_paths_are_seen_whole(path: SoundPath, paths: Seq<SoundPath>, i: int)
    ensures
        path@.len() == path.parts@.len(),
        0 <= i < path.parts@.len() ==> path@[i] == path.parts@[i]@,
        path_views(paths).len() == paths.len(),
        0 <= i < paths.len() ==> path_views(paths)[i] == paths[i]@,
{
}

} // verus!
