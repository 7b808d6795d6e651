//! The sound library: bundles, their names, and the sounds in them.

use vstd::prelude::*;
use vstd::utf8::{decode_utf8, encode_utf8, encode_utf8_decode_utf8, valid_utf8};

use crate::level::Level;
use crate::lists::{lemma_filter_multiset, lemma_insert_filter};
use crate::paths::{
    bytes_order, compare_bytes, insert_once, is_listing, is_sound, is_sound_file,
    law_bytes_are_ordered_by_the_first_difference,
    lemma_bytes_are_ordered, list_sounds, name_rank, path_views,
    strictly_ascending, PathPart, PathView, SoundPath,
};
use crate::settings::{names, PlaybackOrder};
use crate::text::{chars_of, is_blank, is_letter_or_digit, letter_or_digit, trimmed, utf8_text};

verus! {

// ── Bundle names ─────────────────────────────────────────────────────

/// Why a bundle or a sound could not be dealt with. A reason is what the
/// operating system said.
#[derive(Debug)]
pub enum BundleError {
    NameLength,
    NameCharacters,
    AlreadyExists(String),
    NotFound(String),
    CreateFailed(String),
    DeleteFailed(String),
    RenameFailed(String),
    DirectoryFailed(String),
    RemoveFailed(String),
}

impl BundleError {
    pub open spec fn message_spec(self) -> Seq<char> {
        match self {
            BundleError::NameLength => "Bundle name must be 1-50 characters"@,
            BundleError::NameCharacters => "Bundle name contains invalid characters"@,
            BundleError::AlreadyExists(name) => "Bundle '"@ + name@ + "' already exists"@,
            BundleError::NotFound(name) => "Bundle '"@ + name@ + "' not found"@,
            BundleError::CreateFailed(reason) => "Failed to create bundle: "@ + reason@,
            BundleError::DeleteFailed(reason) => "Failed to delete bundle: "@ + reason@,
            BundleError::RenameFailed(reason) => "Failed to rename: "@ + reason@,
            BundleError::DirectoryFailed(reason) => "Failed to create dir: "@ + reason@,
            BundleError::RemoveFailed(reason) => "Failed to remove: "@ + reason@,
        }
    }

    /// The error in words.
    pub fn message(&self) -> (message: String)
        ensures
            message@ == self.message_spec(),
    {
        match self {
            BundleError::NameLength => "Bundle name must be 1-50 characters".to_string(),
            BundleError::NameCharacters => "Bundle name contains invalid characters".to_string(),
            BundleError::AlreadyExists(name) => "Bundle '".to_string().concat(
                name.as_str(),
            ).concat("' already exists"),
            BundleError::NotFound(name) => "Bundle '".to_string().concat(name.as_str()).concat(
                "' not found",
            ),
            BundleError::CreateFailed(reason) => "Failed to create bundle: ".to_string().concat(
                reason.as_str(),
            ),
            BundleError::DeleteFailed(reason) => "Failed to delete bundle: ".to_string().concat(
                reason.as_str(),
            ),
            BundleError::RenameFailed(reason) => "Failed to rename: ".to_string().concat(
                reason.as_str(),
            ),
            BundleError::DirectoryFailed(reason) => "Failed to create dir: ".to_string().concat(
                reason.as_str(),
            ),
            BundleError::RemoveFailed(reason) => "Failed to remove: ".to_string().concat(
                reason.as_str(),
            ),
        }
    }
}

/// The greatest length of a bundle name, in bytes.
pub const GREATEST_NAME_LENGTH: usize = 50;

pub open spec fn is_name_length(name: Seq<char>) -> bool {
    1 <= encode_utf8(name).len() <= GREATEST_NAME_LENGTH
}

pub open spec fn is_name_char(c: char) -> bool {
    is_letter_or_digit(c) || c == ' ' || c == '_' || c == '-'
}

pub open spec fn has_name_chars(name: Seq<char>) -> bool {
    forall|i: int| 0 <= i < name.len() ==> is_name_char(#[trigger] name[i])
}

/// The verdict on a bundle's name.
pub open spec fn name_verdict(name: Seq<char>) -> Result<(), BundleError> {
    if !is_name_length(name) {
        Err(BundleError::NameLength)
    } else if !has_name_chars(name) {
        Err(BundleError::NameCharacters)
    } else {
        Ok(())
    }
}

/// Rejects names that could lead out of the library or hold unsafe characters.
pub fn validate_bundle_name(name: &str) -> (verdict: Result<(), BundleError>)
    ensures
        verdict == name_verdict(name@),
{
    let length: usize = name.as_bytes().len();
    if length == 0 || length > GREATEST_NAME_LENGTH {
        return Err(BundleError::NameLength);
    }
    let chars = chars_of(name);
    let mut i: usize = 0;
    while i < chars.len()
        invariant
            i <= chars@.len(),
            chars@ == name@,
            is_name_length(name@),
            forall|j: int| 0 <= j < i ==> is_name_char(#[trigger] name@[j]),
        decreases chars.len() - i,
    {
        let c = chars[i];
        if !(letter_or_digit(c) || c == ' ' || c == '_' || c == '-') {
            assert(!is_name_char(name@[i as int]));
            return Err(BundleError::NameCharacters);
        }
        i += 1;
    }
    Ok(())
}

/// A valid name cannot lead out of the library: it is not empty and holds no
/// separator, no dot, no colon and no control character.
pub proof fn law_valid_names_stay_in_the_library(name: Seq<char>, i: int)
    requires
        name_verdict(name) is Ok,
        0 <= i < name.len(),
    ensures
        name[i] != '/' && name[i] != '\\' && name[i] != '.' && name[i] != ':',
        name[i] as u32 >= 32 && name[i] as u32 != 127,
{
    assert(is_name_char(name[i]));
}

/// Whether a bundle may be created: its name has to be valid and (`exists`) free.
pub fn create_bundle(name: &str, exists: bool) -> (verdict: Result<(), BundleError>)
    ensures
        name_verdict(name@) is Err ==> verdict == name_verdict(name@),
        name_verdict(name@) is Ok && exists ==> (verdict matches Err(
            BundleError::AlreadyExists(taken),
        ) && taken@ == name@),
        name_verdict(name@) is Ok && !exists ==> verdict is Ok,
{
    validate_bundle_name(name)?;
    if exists {
        return Err(BundleError::AlreadyExists(name.to_string()));
    }
    Ok(())
}

/// Whether a bundle may be deleted: it has to exist.
pub fn delete_bundle(name: &str, exists: bool) -> (verdict: Result<(), BundleError>)
    ensures
        !exists ==> (verdict matches Err(BundleError::NotFound(missing)) && missing@ == name@),
        exists ==> verdict is Ok,
{
    if !exists {
        return Err(BundleError::NotFound(name.to_string()));
    }
    Ok(())
}

/// Whether a bundle may be renamed: the new name has to be valid, the old one has
/// to exist and the new one has to be free.
pub fn rename_bundle(old: &str, new: &str, old_exists: bool, new_exists: bool) -> (verdict: Result<
    (),
    BundleError,
>)
    ensures
        name_verdict(new@) is Err ==> verdict == name_verdict(new@),
        name_verdict(new@) is Ok && !old_exists ==> (verdict matches Err(
            BundleError::NotFound(missing),
        ) && missing@ == old@),
        name_verdict(new@) is Ok && old_exists && new_exists ==> (verdict matches Err(
            BundleError::AlreadyExists(taken),
        ) && taken@ == new@),
        name_verdict(new@) is Ok && old_exists && !new_exists ==> verdict is Ok,
{
    validate_bundle_name(new)?;
    if !old_exists {
        return Err(BundleError::NotFound(old.to_string()));
    }
    if new_exists {
        return Err(BundleError::AlreadyExists(new.to_string()));
    }
    Ok(())
}

// ── Sounds of a bundle ───────────────────────────────────────────────

/// A sound, as the user sees it.
#[derive(Debug)]
pub struct SoundInfo {
    pub name: String,
}

pub open spec fn info_names(sounds: Seq<SoundInfo>) -> Seq<Seq<char>> {
    sounds.map_values(|sound: SoundInfo| sound.name@)
}

/// The name of the file that a path leads to, where the path ends in a name that
/// is text.
pub open spec fn file_text(path: PathView) -> Option<Seq<char>> {
    if path.len() > 0 && path.last().rank == name_rank() && valid_utf8(path.last().name) {
        Some(decode_utf8(path.last().name))
    } else {
        None
    }
}

/// The file names of the paths, without those that are not text.
pub open spec fn file_texts(paths: Seq<PathView>) -> Seq<Seq<char>>
    decreases paths.len(),
{
    if paths.len() == 0 {
        Seq::empty()
    } else {
        let earlier = file_texts(paths.drop_last());
        match file_text(paths.last()) {
            Some(name) => earlier.push(name),
            None => earlier,
        }
    }
}

/// The name of the file that a path leads to, if it is text.
pub fn text_name(path: &SoundPath) -> (name: Option<String>)
    ensures
        match name {
            Some(name) => file_text(path@) == Some(name@),
            None => file_text(path@) is None,
        },
{
    if path.parts.len() == 0 {
        return None;
    }
    let last: usize = path.parts.len() - 1;
    assert(path@.last() == path.parts@[last as int]@);
    match &path.parts[last] {
        PathPart::Name(bytes) => {
            let text = utf8_text(bytes.clone());
            proof {
                if text is Some {
                    encode_utf8_decode_utf8(text->0@);
                }
            }
            text
        },
        _ => None,
    }
}

/// The sounds among the entries of a bundle's directory, by file name.
pub fn list_bundle_sounds(entries: &Vec<SoundPath>) -> (sounds: Vec<SoundInfo>)
    ensures
        exists|listing: Seq<PathView>| #[trigger]
            is_listing(listing, path_views(entries@)) && info_names(sounds@) == file_texts(listing),
{
    let listed = list_sounds(entries);
    let ghost listing = path_views(listed@);
    let mut sounds: Vec<SoundInfo> = Vec::new();
    let mut i: usize = 0;
    assert(info_names(sounds@) == file_texts(listing.take(0)));
    while i < listed.len()
        invariant
            i <= listed@.len(),
            listing == path_views(listed@),
            info_names(sounds@) == file_texts(listing.take(i as int)),
        decreases listed.len() - i,
    {
        proof {
            assert(listing.take(i + 1).drop_last() == listing.take(i as int));
            assert(listing.take(i + 1).last() == listed@[i as int]@);
        }
        if let Some(name) = text_name(&listed[i]) {
            let sound = SoundInfo { name };
            assert(info_names(sounds@.push(sound)) == info_names(sounds@).push(sound.name@));
            sounds.push(sound);
        }
        i += 1;
    }
    assert(listing.take(listing.len() as int) == listing);
    sounds
}

pub open spec fn has_sound(entries: Seq<PathView>) -> bool {
    exists|i: int| 0 <= i < entries.len() && is_sound(#[trigger] entries[i])
}

/// Whether a bundle can be played: it has a name, and a sound among the entries
/// of its directory.
pub fn bundle_has_sounds(bundle: &str, entries: &Vec<SoundPath>) -> (playable: bool)
    ensures
        playable == (trimmed(bundle@).len() > 0 && has_sound(path_views(entries@))),
{
    if is_blank(bundle) {
        return false;
    }
    let ghost views = path_views(entries@);
    let mut i: usize = 0;
    while i < entries.len()
        invariant
            i <= entries@.len(),
            views == path_views(entries@),
            trimmed(bundle@).len() > 0,
            forall|j: int| 0 <= j < i ==> !is_sound(#[trigger] views[j]),
        decreases entries.len() - i,
    {
        assert(views[i as int] == entries@[i as int]@);
        if is_sound_file(&entries[i]) {
            assert(is_sound(views[i as int]));
            return true;
        }
        i += 1;
    }
    false
}

// ── Bundles ──────────────────────────────────────────────────────────

/// A bundle, and how many sounds it has.
#[derive(Debug)]
pub struct BundleInfo {
    pub name: String,
    pub count: usize,
}

/// A bundle, with its name as a sequence of characters.
pub struct InfoView {
    pub name: Seq<char>,
    pub count: nat,
}

impl View for BundleInfo {
    type V = InfoView;

    open spec fn view(&self) -> InfoView {
        InfoView { name: self.name@, count: self.count as nat }
    }
}

pub open spec fn info_views(bundles: Seq<BundleInfo>) -> Seq<InfoView> {
    bundles.map_values(|bundle: BundleInfo| bundle@)
}

/// An entry of the library's directory: its name, whether it is a directory, and
/// the entries in it.
pub struct LibraryEntry {
    pub name: Vec<u8>,
    pub is_dir: bool,
    pub entries: Vec<SoundPath>,
}

/// The bundle that an entry is: a directory whose name is text.
pub open spec fn bundle_of(entry: LibraryEntry) -> Option<InfoView> {
    if entry.is_dir && valid_utf8(entry.name@) {
        Some(
            InfoView {
                name: decode_utf8(entry.name@),
                count: path_views(entry.entries@).filter(|path: PathView| is_sound(path)).len(),
            },
        )
    } else {
        None
    }
}

pub open spec fn bundles_among(entries: Seq<LibraryEntry>) -> Seq<InfoView>
    decreases entries.len(),
{
    if entries.len() == 0 {
        Seq::empty()
    } else {
        let earlier = bundles_among(entries.drop_last());
        match bundle_of(entries.last()) {
            Some(bundle) => earlier.push(bundle),
            None => earlier,
        }
    }
}

/// The order of names: byte by byte.
pub open spec fn name_order(a: Seq<char>, b: Seq<char>) -> int {
    bytes_order(encode_utf8(a), encode_utf8(b))
}

pub open spec fn ascending_names(bundles: Seq<InfoView>) -> bool {
    forall|i: int, j: int|
        0 <= i < j < bundles.len() ==> name_order(
            (#[trigger] bundles[i]).name,
            (#[trigger] bundles[j]).name,
        ) <= 0
}

pub open spec fn is_named(name: Seq<char>) -> spec_fn(InfoView) -> bool {
    |bundle: InfoView| bundle.name == name
}

/// The list holds the given bundles ordered by name; bundles of one name keep
/// their order.
pub open spec fn is_sorted_by_name(sorted: Seq<InfoView>, bundles: Seq<InfoView>) -> bool {
    &&& ascending_names(sorted)
    &&& forall|name: Seq<char>|
        sorted.filter(#[trigger] is_named(name)) == bundles.filter(is_named(name))
}

proof fn lemma_name_pair(a: Seq<char>, b: Seq<char>)
    ensures
        name_order(a, b) < 0 <==> name_order(b, a) > 0,
        name_order(a, a) == 0,
{
    lemma_bytes_are_ordered();
    let bytes = |a: Seq<u8>, b: Seq<u8>| bytes_order(a, b);
    assert(bytes(encode_utf8(a), encode_utf8(b)) < 0 <==> bytes(encode_utf8(b), encode_utf8(a)) > 0);
    assert(bytes(encode_utf8(a), encode_utf8(a)) == 0);
}

proof fn lemma_name_transitive(a: Seq<char>, b: Seq<char>, c: Seq<char>)
    requires
        name_order(a, b) <= 0,
        name_order(b, c) <= 0,
    ensures
        name_order(a, c) <= 0,
{
    lemma_bytes_are_ordered();
    let bytes = |a: Seq<u8>, b: Seq<u8>| bytes_order(a, b);
    assert(bytes(encode_utf8(a), encode_utf8(b)) <= 0);
    assert(bytes(encode_utf8(b), encode_utf8(c)) <= 0);
    assert(bytes(encode_utf8(a), encode_utf8(c)) <= 0);
}

fn compare_names(a: &str, b: &str) -> (order: i8)
    ensures
        order == name_order(a@, b@),
{
    compare_bytes(a.as_bytes(), b.as_bytes())
}

proof fn lemma_insert_by_name(
    sorted: Seq<InfoView>,
    bundles: Seq<InfoView>,
    place: int,
    bundle: InfoView,
)
    requires
        is_sorted_by_name(sorted, bundles),
        0 <= place <= sorted.len(),
        forall|i: int| 0 <= i < place ==> name_order((#[trigger] sorted[i]).name, bundle.name) <= 0,
        forall|i: int|
            place <= i < sorted.len() ==> name_order((#[trigger] sorted[i]).name, bundle.name) > 0,
    ensures
        is_sorted_by_name(sorted.insert(place, bundle), bundles.push(bundle)),
{
    let after = sorted.insert(place, bundle);
    sorted.insert_ensures(place, bundle);
    assert forall|i: int, j: int| 0 <= i < j < after.len() implies name_order(
        (#[trigger] after[i]).name,
        (#[trigger] after[j]).name,
    ) <= 0 by {
        if i == place {
            assert(after[j] == sorted[j - 1]);
            lemma_name_pair(bundle.name, sorted[j - 1].name);
        } else if j == place {
            assert(after[i] == sorted[i]);
        } else {
            let a = if i < place { i } else { i - 1 };
            let b = if j < place { j } else { j - 1 };
            assert(after[i] == sorted[a] && after[j] == sorted[b]);
        }
    }
    assert forall|name: Seq<char>|
        after.filter(#[trigger] is_named(name)) == bundles.push(bundle).filter(is_named(name)) by {
        let keep = is_named(name);
        assert forall|i: int| place <= i < sorted.len() implies !keep(#[trigger] sorted[i]) || !keep(
            bundle,
        ) by {
            lemma_name_pair(bundle.name, bundle.name);
        }
        lemma_insert_filter(sorted, place, bundle, keep);
        reveal(Seq::filter);
        assert(sorted.push(bundle).drop_last() == sorted);
        assert(bundles.push(bundle).drop_last() == bundles);
    }
}

fn insert_by_name(sorted: &mut Vec<BundleInfo>, bundle: BundleInfo, Ghost(bundles): Ghost<
    Seq<InfoView>,
>)
    requires
        is_sorted_by_name(info_views(old(sorted)@), bundles),
    ensures
        is_sorted_by_name(info_views(final(sorted)@), bundles.push(bundle@)),
{
    let ghost views = info_views(sorted@);
    let mut place: usize = sorted.len();
    while place > 0 && compare_names(sorted[place - 1].name.as_str(), bundle.name.as_str()) > 0
        invariant
            place <= sorted@.len(),
            *sorted == *old(sorted),
            views == info_views(sorted@),
            forall|i: int|
                place <= i < sorted@.len() ==> name_order((#[trigger] views[i]).name, bundle.name@)
                    > 0,
        decreases place,
    {
        assert(views[place - 1].name == sorted@[place - 1].name@);
        place -= 1;
    }
    proof {
        assert forall|i: int| 0 <= i < place implies name_order(
            (#[trigger] views[i]).name,
            bundle.name@,
        ) <= 0 by {
            assert(views[place - 1].name == sorted@[place - 1].name@);
            if i < place - 1 {
                assert(name_order(views[i].name, views[place - 1].name) <= 0);
                lemma_name_transitive(views[i].name, views[place - 1].name, bundle.name@);
            }
        }
        lemma_insert_by_name(views, bundles, place as int, bundle@);
        assert(info_views(sorted@.insert(place as int, bundle)) == views.insert(
            place as int,
            bundle@,
        ));
    }
    sorted.insert(place, bundle);
}

/// The bundles among the entries of the library's directory, ordered by name.
pub fn list_bundles(entries: &Vec<LibraryEntry>) -> (bundles: Vec<BundleInfo>)
    ensures
        is_sorted_by_name(info_views(bundles@), bundles_among(entries@)),
{
    let mut bundles: Vec<BundleInfo> = Vec::new();
    let mut i: usize = 0;
    assert(info_views(bundles@) == bundles_among(entries@.take(0)));
    while i < entries.len()
        invariant
            i <= entries@.len(),
            is_sorted_by_name(info_views(bundles@), bundles_among(entries@.take(i as int))),
        decreases entries.len() - i,
    {
        proof {
            assert(entries@.take(i + 1).drop_last() == entries@.take(i as int));
            assert(entries@.take(i + 1).last() == entries@[i as int]);
        }
        if entries[i].is_dir {
            let text = utf8_text(entries[i].name.clone());
            if let Some(name) = text {
                proof {
                    encode_utf8_decode_utf8(name@);
                }
                let sounds = list_sounds(&entries[i].entries);
                let bundle = BundleInfo { name, count: sounds.len() };
                proof {
                    broadcast use vstd::seq_lib::group_to_multiset_ensures;

                    let keep = |path: PathView| is_sound(path);
                    let found = path_views(entries@[i as int].entries@).filter(keep);
                    assert(path_views(sounds@).to_multiset().len() == found.to_multiset().len());
                    assert(path_views(sounds@).len() == found.len());
                    assert(bundle_of(entries@[i as int]) == Some(bundle@));
                }
                insert_by_name(
                    &mut bundles,
                    bundle,
                    Ghost(bundles_among(entries@.take(i as int))),
                );
            }
        }
        i += 1;
    }
    assert(entries@.take(entries@.len() as int) == entries@);
    bundles
}

// ── Selections ───────────────────────────────────────────────────────

/// A sound that the user picked, and whether its path leads to a file.
pub struct PickedFile {
    pub path: SoundPath,
    pub is_file: bool,
}

/// The path is that of a sound, and is an entry of a selected category or that of
/// a picked file.
pub open spec fn is_selected(
    path: PathView,
    categories: Seq<Vec<SoundPath>>,
    picked: Seq<PickedFile>,
) -> bool {
    is_sound(path) && (in_categories(path, categories) || in_picked(path, picked))
}

pub open spec fn in_categories(path: PathView, categories: Seq<Vec<SoundPath>>) -> bool {
    exists|i: int|
        0 <= i < categories.len() && path_views((#[trigger] categories[i])@).contains(path)
}

pub open spec fn in_picked(path: PathView, picked: Seq<PickedFile>) -> bool {
    exists|i: int|
        0 <= i < picked.len() && (#[trigger] picked[i]).is_file && picked[i].path@ == path
}

/// The files to play for a selection: the sounds among the entries of the
/// selected categories and the picked files, each once, in order.
pub fn files_for_selection(categories: &Vec<Vec<SoundPath>>, picked: &Vec<PickedFile>) -> (files: Vec<
    SoundPath,
>)
    ensures
        strictly_ascending(path_views(files@)),
        forall|path: PathView| #[trigger]
            path_views(files@).contains(path) <==> is_selected(path, categories@, picked@),
{
    let mut files: Vec<SoundPath> = Vec::new();
    let mut i: usize = 0;
    assert(path_views(files@) == Seq::<PathView>::empty());
    while i < categories.len()
        invariant
            i <= categories@.len(),
            strictly_ascending(path_views(files@)),
            forall|path: PathView| #[trigger]
                path_views(files@).contains(path) <==> is_sound(path) && in_categories(
                    path,
                    categories@.take(i as int),
                ),
        decreases categories.len() - i,
    {
        let entries = &categories[i];
        let ghost views = path_views(entries@);
        let mut j: usize = 0;
        while j < entries.len()
            invariant
                i < categories@.len(),
                j <= entries@.len(),
                entries == categories@[i as int],
                views == path_views(entries@),
                strictly_ascending(path_views(files@)),
                forall|path: PathView| #[trigger]
                    path_views(files@).contains(path) <==> is_sound(path) && (in_categories(
                        path,
                        categories@.take(i as int),
                    ) || views.take(j as int).contains(path)),
            decreases entries.len() - j,
        {
            let ghost path = entries@[j as int]@;
            if is_sound_file(&entries[j]) {
                insert_once(&mut files, &entries[j]);
            }
            proof {
                assert(views[j as int] == path);
                assert forall|other: PathView| #[trigger]
                    views.take(j + 1).contains(other) <==> other == path || views.take(
                        j as int,
                    ).contains(other) by {
                    lemma_take_contains(views, j as int, other);
                }
            }
            j += 1;
        }
        proof {
            assert(views.take(views.len() as int) == views);
            assert forall|path: PathView| #[trigger]
                in_categories(path, categories@.take(i + 1)) <==> in_categories(
                    path,
                    categories@.take(i as int),
                ) || views.contains(path) by {
                let before = categories@.take(i as int);
                let after = categories@.take(i + 1);
                if in_categories(path, after) {
                    let k = choose|k: int|
                        0 <= k < after.len() && path_views((#[trigger] after[k])@).contains(path);
                    if k < i {
                        assert(before[k] == after[k]);
                    }
                }
                if in_categories(path, before) {
                    let k = choose|k: int|
                        0 <= k < before.len() && path_views((#[trigger] before[k])@).contains(path);
                    assert(after[k] == before[k]);
                }
                if views.contains(path) {
                    assert(path_views(after[i as int]@).contains(path));
                }
            }
        }
        i += 1;
    }
    assert(categories@.take(categories@.len() as int) == categories@);
    let mut k: usize = 0;
    while k < picked.len()
        invariant
            k <= picked@.len(),
            strictly_ascending(path_views(files@)),
            forall|path: PathView| #[trigger]
                path_views(files@).contains(path) <==> is_selected(
                    path,
                    categories@,
                    picked@.take(k as int),
                ),
        decreases picked.len() - k,
    {
        if picked[k].is_file && is_sound_file(&picked[k].path) {
            insert_once(&mut files, &picked[k].path);
        }
        proof {
            let file = picked@[k as int];
            let before = picked@.take(k as int);
            let after = picked@.take(k + 1);
            assert forall|path: PathView| #[trigger]
                in_picked(path, after) <==> in_picked(path, before) || (file.is_file && file.path@
                    == path) by {
                if in_picked(path, after) {
                    let m = choose|m: int|
                        0 <= m < after.len() && (#[trigger] after[m]).is_file && after[m].path@
                            == path;
                    if m < k {
                        assert(before[m] == after[m]);
                    }
                }
                if in_picked(path, before) {
                    let m = choose|m: int|
                        0 <= m < before.len() && (#[trigger] before[m]).is_file && before[m].path@
                            == path;
                    assert(after[m] == before[m]);
                }
                assert(after[k as int] == file);
            }
        }
        k += 1;
    }
    assert(picked@.take(picked@.len() as int) == picked@);
    files
}

proof fn lemma_take_contains(paths: Seq<PathView>, at: int, path: PathView)
    requires
        0 <= at < paths.len(),
    ensures
        paths.take(at + 1).contains(path) <==> path == paths[at] || paths.take(at).contains(path),
{
    let before = paths.take(at);
    let after = paths.take(at + 1);
    if after.contains(path) {
        let k = choose|k: int| 0 <= k < after.len() && after[k] == path;
        if k < at {
            assert(before[k] == path);
        }
    }
    if before.contains(path) {
        let k = choose|k: int| 0 <= k < before.len() && before[k] == path;
        assert(after[k] == path);
    }
    assert(after[at] == paths[at]);
}

/// A request to the player.
#[derive(Debug)]
pub struct PlayCmd {
    pub files: Vec<SoundPath>,
    pub volume: Level,
    pub intensity: Level,
    pub playback_order: PlaybackOrder,
}

/// The request to play a selection.
pub fn play_selection(
    categories: &Vec<Vec<SoundPath>>,
    picked: &Vec<PickedFile>,
    playback_order: PlaybackOrder,
    volume: Level,
    intensity: Level,
) -> (request: PlayCmd)
    ensures
        strictly_ascending(path_views(request.files@)),
        forall|path: PathView| #[trigger]
            path_views(request.files@).contains(path) <==> is_selected(path, categories@, picked@),
        request.playback_order == playback_order,
        request.volume == volume,
        request.intensity == intensity,
{
    let files = files_for_selection(categories, picked);
    PlayCmd { files, volume, intensity, playback_order }
}

/// The request to play the sounds of one bundle, in random order.
pub fn play(entries: Vec<SoundPath>, volume: Level, intensity: Level) -> (request: PlayCmd)
    ensures
        strictly_ascending(path_views(request.files@)),
        forall|path: PathView| #[trigger]
            path_views(request.files@).contains(path) <==> is_sound(path) && path_views(
                entries@,
            ).contains(path),
        request.playback_order == PlaybackOrder::Random,
        request.volume == volume,
        request.intensity == intensity,
{
    let mut categories: Vec<Vec<SoundPath>> = Vec::new();
    categories.push(entries);
    let picked: Vec<PickedFile> = Vec::new();
    let request = play_selection(&categories, &picked, PlaybackOrder::Random, volume, intensity);
    proof {
        assert forall|path: PathView| #[trigger]
            is_selected(path, categories@, picked@) <==> is_sound(path) && path_views(
                entries@,
            ).contains(path) by {
            assert(categories@[0] == entries);
            if in_categories(path, categories@) {
                let i = choose|i: int|
                    0 <= i < categories@.len() && path_views(
                        (#[trigger] categories@[i])@,
                    ).contains(path);
                assert(i == 0);
            }
        }
    }
    request
}

// ── Files that come in ───────────────────────────────────────────────

/// An attempt to copy a file into a bundle. A path without a file name is not
/// copied.
pub struct ImportAttempt {
    pub filename: Option<String>,
    pub copied: bool,
}

pub open spec fn imported(attempts: Seq<ImportAttempt>) -> Seq<Seq<char>>
    decreases attempts.len(),
{
    if attempts.len() == 0 {
        Seq::empty()
    } else {
        let earlier = imported(attempts.drop_last());
        match attempts.last().filename {
            Some(filename) if attempts.last().copied => earlier.push(filename@),
            _ => earlier,
        }
    }
}

/// The names of the files that were copied.
pub fn import_sounds(attempts: &Vec<ImportAttempt>) -> (filenames: Vec<String>)
    ensures
        names(filenames@) == imported(attempts@),
{
    let mut filenames: Vec<String> = Vec::new();
    let mut i: usize = 0;
    assert(names(filenames@) == imported(attempts@.take(0)));
    while i < attempts.len()
        invariant
            i <= attempts@.len(),
            names(filenames@) == imported(attempts@.take(i as int)),
        decreases attempts.len() - i,
    {
        proof {
            assert(attempts@.take(i + 1).drop_last() == attempts@.take(i as int));
            assert(attempts@.take(i + 1).last() == attempts@[i as int]);
        }
        if attempts[i].copied {
            if let Some(filename) = &attempts[i].filename {
                let copy = filename.clone();
                assert(names(filenames@.push(copy)) == names(filenames@).push(copy@));
                filenames.push(copy);
            }
        }
        i += 1;
    }
    assert(attempts@.take(attempts@.len() as int) == attempts@);
    filenames
}

/// What installing the starter library does with one entry.
#[derive(Debug, Clone, Copy, PartialEq, Eq, Structural)]
pub enum InstallStep {
    Descend,
    Copy,
    Skip,
}

/// A directory is entered, a missing file is copied, and what is there already
/// stays as it is.
pub fn install_step(is_dir: bool, target_exists: bool) -> (step: InstallStep)
    ensures
        step == InstallStep::Descend <==> is_dir,
        step == InstallStep::Copy <==> !is_dir && !target_exists,
        step == InstallStep::Skip <==> !is_dir && target_exists,
{
    if is_dir {
        InstallStep::Descend
    } else if !target_exists {
        InstallStep::Copy
    } else {
        InstallStep::Skip
    }
}

// ── Laws ─────────────────────────────────────────────────────────────

/// A name is valid just where it is from one to fifty bytes long and every character
/// is a letter, a digit, a space, an underscore or a hyphen. A length that is amiss
/// is what is told first.
pub proof fn law_which_names_are_valid(name: Seq<char>)
    ensures
        name_verdict(name) is Ok <==> 1 <= encode_utf8(name).len() <= 50 && forall|i: int|
            0 <= i < name.len() ==> is_letter_or_digit(#[trigger] name[i]) || name[i] == ' '
                || name[i] == '_' || name[i] == '-',
        name_verdict(name) == Err::<(), BundleError>(BundleError::NameLength) <==> encode_utf8(
            name,
        ).len() == 0 || encode_utf8(name).len() > 50,
        name_verdict(name) is Err ==> name_verdict(name) == Err::<(), BundleError>(
            BundleError::NameLength,
        ) || name_verdict(name) == Err::<(), BundleError>(BundleError::NameCharacters),
{
    if forall|i: int|
        0 <= i < name.len() ==> is_letter_or_digit(#[trigger] name[i]) || name[i] == ' ' || name[i]
            == '_' || name[i] == '-' {
        assert forall|i: int| 0 <= i < name.len() implies is_name_char(#[trigger] name[i]) by {}
    }
    if has_name_chars(name) {
        assert forall|i: int| 0 <= i < name.len() implies is_letter_or_digit(#[trigger] name[i])
            || name[i] == ' ' || name[i] == '_' || name[i] == '-' by {
            assert(is_name_char(name[i]));
        }
    }
}

/// A path that ends in a name that is text has that text for its file name, and no
/// other path has one.
pub proof fn law_which_paths_have_a_file_name(path: PathView)
    ensures
        file_text(path) is Some <==> path.len() > 0 && path[path.len() - 1].rank == name_rank()
            && valid_utf8(path[path.len() - 1].name),
        file_text(path) matches Some(text) ==> text == decode_utf8(path[path.len() - 1].name),
{
}

/// The bundles among the entries of the library are its directories whose names are
/// text, every one of them and nothing else. A bundle's count is the length of the
/// listing of its sounds.
pub proof fn law_bundles_are_the_directories(entries: Seq<LibraryEntry>, i: int, k: int)
    ensures
        0 <= i < entries.len() && entries[i].is_dir && valid_utf8(entries[i].name@) ==> exists|
            at: int,
        |
            0 <= at < bundles_among(entries).len() && stands_for(
                #[trigger] bundles_among(entries)[at],
                entries[i],
            ),
        0 <= k < bundles_among(entries).len() ==> exists|at: int|
            0 <= at < entries.len() && stands_for(
                bundles_among(entries)[k],
                #[trigger] entries[at],
            ),
{
    if 0 <= i < entries.len() && entries[i].is_dir && valid_utf8(entries[i].name@) {
        let at = lemma_directory_is_listed(entries, i);
        assert(stands_for(bundles_among(entries)[at], entries[i]));
    }
    if 0 <= k < bundles_among(entries).len() {
        let at = lemma_bundle_is_a_directory(entries, k);
        assert(stands_for(bundles_among(entries)[k], entries[at]));
    }
}

proof fn lemma_directory_is_listed(entries: Seq<LibraryEntry>, i: int) -> (at: int)
    requires
        0 <= i < entries.len(),
        entries[i].is_dir,
        valid_utf8(entries[i].name@),
    ensures
        0 <= at < bundles_among(entries).len(),
        stands_for(bundles_among(entries)[at], entries[i]),
    decreases entries.len(),
{
    let rest = entries.drop_last();
    let earlier = bundles_among(rest);
    if i < rest.len() {
        assert(rest[i] == entries[i]);
        let at = lemma_directory_is_listed(rest, i);
        assert(bundles_among(entries)[at] == earlier[at]);
        at
    } else {
        lemma_stands_for(entries[i]);
        earlier.len() as int
    }
}

proof fn lemma_bundle_is_a_directory(entries: Seq<LibraryEntry>, k: int) -> (at: int)
    requires
        0 <= k < bundles_among(entries).len(),
    ensures
        0 <= at < entries.len(),
        stands_for(bundles_among(entries)[k], entries[at]),
    decreases entries.len(),
{
    let rest = entries.drop_last();
    let earlier = bundles_among(rest);
    if k < earlier.len() {
        let at = lemma_bundle_is_a_directory(rest, k);
        assert(rest[at] == entries[at]);
        assert(bundles_among(entries)[k] == earlier[k]);
        at
    } else {
        lemma_stands_for(entries[entries.len() - 1]);
        entries.len() - 1
    }
}

/// The bundle has the name of the directory, and counts what a listing of the
/// directory's sounds holds.
#[verifier::opaque]
pub open spec fn stands_for(bundle: InfoView, entry: LibraryEntry) -> bool {
    &&& entry.is_dir && valid_utf8(entry.name@)
    &&& bundle.name == decode_utf8(entry.name@)
    &&& forall|listing: Seq<PathView>| #[trigger]
        is_listing(listing, path_views(entry.entries@)) ==> bundle.count == listing.len()
}

proof fn lemma_stands_for(entry: LibraryEntry)
    requires
        bundle_of(entry) is Some,
    ensures
        stands_for(bundle_of(entry)->0, entry),
{
    broadcast use vstd::seq_lib::group_to_multiset_ensures;

    reveal(stands_for);
    let views = path_views(entry.entries@);
    let found = views.filter(|path: PathView| is_sound(path));
    assert forall|listing: Seq<PathView>| #[trigger] is_listing(listing, views) implies bundle_of(
        entry,
    )->0.count == listing.len() by {
        assert(listing.to_multiset().len() == found.to_multiset().len());
    }
}

/// A list in the order of names holds the same bundles as the list that it was made
/// from, with their repetitions.
pub proof fn law_sorting_keeps_the_bundles(
    sorted: Seq<InfoView>,
    bundles: Seq<InfoView>,
    bundle: InfoView,
)
    requires
        is_sorted_by_name(sorted, bundles),
    ensures
        sorted.to_multiset().count(bundle) == bundles.to_multiset().count(bundle),
        sorted.contains(bundle) <==> bundles.contains(bundle),
{
    broadcast use vstd::seq_lib::group_to_multiset_ensures;

    let keep = is_named(bundle.name);
    assert(sorted.filter(is_named(bundle.name)) == bundles.filter(is_named(bundle.name)));
    lemma_filter_multiset(sorted, keep);
    lemma_filter_multiset(bundles, keep);
    assert(sorted.to_multiset().filter(keep).count(bundle) == sorted.to_multiset().count(bundle));
    assert(bundles.to_multiset().filter(keep).count(bundle) == bundles.to_multiset().count(bundle));
    assert(sorted.contains(bundle) <==> sorted.to_multiset().count(bundle) > 0);
    assert(bundles.contains(bundle) <==> bundles.to_multiset().count(bundle) > 0);
}

/// Names are ordered by their bytes: names with the same bytes are level, a name
/// stands before those that it begins, and else the first byte that differs decides.
pub proof fn law_names_are_ordered_by_bytes(a: Seq<char>, b: Seq<char>, at: int)
    requires
        0 <= at <= encode_utf8(a).len(),
        at <= encode_utf8(b).len(),
        forall|i: int| 0 <= i < at ==> #[trigger] encode_utf8(a)[i] == encode_utf8(b)[i],
    ensures
        at == encode_utf8(a).len() && at < encode_utf8(b).len() ==> name_order(a, b) < 0,
        at < encode_utf8(a).len() && at == encode_utf8(b).len() ==> name_order(a, b) > 0,
        at == encode_utf8(a).len() && at == encode_utf8(b).len() ==> name_order(a, b) == 0,
        at < encode_utf8(a).len() && at < encode_utf8(b).len() && encode_utf8(a)[at] < encode_utf8(
            b,
        )[at] ==> name_order(a, b) < 0,
        at < encode_utf8(a).len() && at < encode_utf8(b).len() && encode_utf8(a)[at] > encode_utf8(
            b,
        )[at] ==> name_order(a, b) > 0,
{
    law_bytes_are_ordered_by_the_first_difference(encode_utf8(a), encode_utf8(b), at);
}

/// A selection holds every sound of every selected category and every picked file
/// that is a sound and is there; nothing else.
pub proof fn law_what_a_selection_holds(
    categories: Seq<Vec<SoundPath>>,
    picked: Seq<PickedFile>,
    i: int,
    j: int,
    path: PathView,
)
    ensures
        0 <= i < categories.len() && 0 <= j < categories[i]@.len() && is_sound(categories[i]@[j]@)
            ==> is_selected(categories[i]@[j]@, categories, picked),
        0 <= i < picked.len() && picked[i].is_file && is_sound(picked[i].path@) ==> is_selected(
            picked[i].path@,
            categories,
            picked,
        ),
        is_selected(path, categories, picked) ==> is_sound(path) && (exists|c: int, e: int|
            0 <= c < categories.len() && 0 <= e < categories[c]@.len() && (
            #[trigger] categories[c]@[e])@ == path) || is_sound(path) && (exists|p: int|
            0 <= p < picked.len() && (#[trigger] picked[p]).is_file && picked[p].path@ == path),
{
    if 0 <= i < categories.len() && 0 <= j < categories[i]@.len() {
        assert(path_views(categories[i]@)[j] == categories[i]@[j]@);
        assert(path_views(categories[i]@).contains(categories[i]@[j]@));
    }
    if in_categories(path, categories) {
        let c = choose|c: int|
            0 <= c < categories.len() && path_views((#[trigger] categories[c])@).contains(path);
        let e = choose|e: int|
            0 <= e < path_views(categories[c]@).len() && path_views(categories[c]@)[e] == path;
        assert(categories[c]@[e]@ == path);
    }
}

/// An attempt counts as an import just where it has a file name and was copied; the
/// names come in the order of the attempts.
pub proof fn law_what_was_imported(attempts: Seq<ImportAttempt>, attempt: ImportAttempt)
    ensures
        attempt.copied && attempt.filename is Some ==> imported(attempts.push(attempt)) == imported(
            attempts,
        ).push(attempt.filename->0@),
        !attempt.copied || attempt.filename is None ==> imported(attempts.push(attempt))
            == imported(attempts),
        imported(Seq::empty()).len() == 0,
{
    assert(attempts.push(attempt).drop_last() == attempts);
    assert(attempts.push(attempt).last() == attempt);
}

/// What the user reads of an error: what went wrong, and of which bundle or why.
pub proof fn law_errors_in_words(name: String)
    ensures
        BundleError::NameLength.message_spec() == "Bundle name must be 1-50 characters"@,
        BundleError::NameCharacters.message_spec() == "Bundle name contains invalid characters"@,
        BundleError::AlreadyExists(name).message_spec() == "Bundle '"@ + name@
            + "' already exists"@,
        BundleError::NotFound(name).message_spec() == "Bundle '"@ + name@ + "' not found"@,
        BundleError::CreateFailed(name).message_spec() == "Failed to create bundle: "@ + name@,
        BundleError::DeleteFailed(name).message_spec() == "Failed to delete bundle: "@ + name@,
        BundleError::RenameFailed(name).message_spec() == "Failed to rename: "@ + name@,
        BundleError::DirectoryFailed(name).message_spec() == "Failed to create dir: "@ + name@,
        BundleError::RemoveFailed(name).message_spec() == "Failed to remove: "@ + name@,
{
}

/// A list by name goes up, and bundles of one name stay in the order that they had.
pub proof fn law_bundles_go_up(
    sorted: Seq<InfoView>,
    bundles: Seq<InfoView>,
    name: Seq<char>,
    i: int,
    j: int,
)
    requires
        is_sorted_by_name(sorted, bundles),
    ensures
        0 <= i < j < sorted.len() ==> name_order(sorted[i].name, sorted[j].name) <= 0,
        sorted.filter(|bundle: InfoView| bundle.name == name) == bundles.filter(
            |bundle: InfoView| bundle.name == name,
        ),
{
    let named = |bundle: InfoView| bundle.name == name;
    assert(named =~= is_named(name));
    assert(sorted.filter(is_named(name)) == bundles.filter(is_named(name)));
}

/// Every entry of the library adds one bundle, with its name, or none.
pub proof fn law_one_bundle_for_a_directory(entries: Seq<LibraryEntry>, entry: LibraryEntry)
    ensures
        ({
            let before = bundles_among(entries);
            let after = bundles_among(entries.push(entry));
            let counts = entry.is_dir && valid_utf8(entry.name@);
            &&& counts ==> after.len() == before.len() + 1 && after.drop_last() == before
                && after.last().name == decode_utf8(entry.name@)
            &&& !counts ==> after == before
        }),
        bundles_among(Seq::empty()).len() == 0,
{
    assert(entries.push(entry).drop_last() == entries);
    assert(entries.push(entry).last() == entry);
    assert(bundles_among(entries.push(entry)).drop_last() =~= bundles_among(entries)
        || bundle_of(entry) is None);
}

/// A path adds the name of its file to those of the paths before it, or nothing
/// where it has none.
pub proof fn law_file_names_in_order(paths: Seq<PathView>, path: PathView)
    ensures
        file_text(path) matches Some(name) ==> file_texts(paths.push(path)) == file_texts(
            paths,
        ).push(name),
        file_text(path) is None ==> file_texts(paths.push(path)) == file_texts(paths),
        file_texts(Seq::empty()).len() == 0,
{
    assert(paths.push(path).drop_last() == paths);
    assert(paths.push(path).last() == path);
}

/// Bundles and sounds are seen one by one, with their names and counts.
pub proof fn law_bundles_are_seen_whole(
    bundles: Seq<BundleInfo>,
    sounds: Seq<SoundInfo>,
    i: int,
)
    ensures
        info_views(bundles).len() == bundles.len(),
        0 <= i < bundles.len() ==> info_views(bundles)[i].name == bundles[i].name@
            && info_views(bundles)[i].count == bundles[i].count,
        info_names(sounds).len() == sounds.len(),
        0 <= i < sounds.len() ==> info_names(sounds)[i] == sounds[i].name@,
{
}

} // verus!
