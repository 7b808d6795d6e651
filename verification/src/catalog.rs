//! What the library holds, as far as the settings mention it.

use vstd::prelude::*;

use crate::paths::{
    is_listing, is_sound, is_sound_file, law_listing_holds_the_sounds, path_views, PathView,
    SoundPath,
};
use crate::player::{
    bundle_has_sounds, file_text, file_texts, has_sound, info_views, text_name, BundleInfo,
    InfoView,
};
use crate::settings::{is_nsfw_category, nsfw, SelectedSound, SoundView};
use crate::text::{same_text, trimmed};

verus! {

/// A bundle by name, with the entries of its directory.
pub struct BundleContents {
    pub name: String,
    pub entries: Vec<SoundPath>,
}

/// The entries of the bundle with that name; a bundle that is not in the catalog
/// has none.
pub open spec fn entries_of(catalog: Seq<BundleContents>, name: Seq<char>) -> Seq<PathView>
    decreases catalog.len(),
{
    if catalog.len() == 0 {
        Seq::empty()
    } else if catalog[0].name@ == name {
        path_views(catalog[0].entries@)
    } else {
        entries_of(catalog.drop_first(), name)
    }
}

/// The bundle has a name and a sound.
pub open spec fn is_playable(catalog: Seq<BundleContents>, name: Seq<char>) -> bool {
    trimmed(name).len() > 0 && has_sound(entries_of(catalog, name))
}

/// A sound of that name is among the entries.
pub open spec fn holds_file(entries: Seq<PathView>, filename: Seq<char>) -> bool {
    exists|i: int|
        0 <= i < entries.len() && is_sound(#[trigger] entries[i]) && file_text(entries[i]) == Some(
            filename,
        )
}

/// The picked sound is in its category.
pub open spec fn holds(catalog: Seq<BundleContents>, sound: SoundView) -> bool {
    holds_file(entries_of(catalog, sound.category), sound.filename)
}

fn find_contents(catalog: &Vec<BundleContents>, name: &str) -> (found: Option<usize>)
    ensures
        match found {
            Some(at) => at < catalog@.len() && entries_of(catalog@, name@) == path_views(
                catalog@[at as int].entries@,
            ),
            None => entries_of(catalog@, name@) == Seq::<PathView>::empty(),
        },
{
    let mut at: usize = 0;
    assert(catalog@.skip(0) == catalog@);
    while at < catalog.len()
        invariant
            at <= catalog@.len(),
            entries_of(catalog@, name@) == entries_of(catalog@.skip(at as int), name@),
        decreases catalog.len() - at,
    {
        assert(catalog@.skip(at as int)[0] == catalog@[at as int]);
        assert(catalog@.skip(at as int).drop_first() == catalog@.skip(at + 1));
        if same_text(catalog[at].name.as_str(), name) {
            return Some(at);
        }
        at += 1;
    }
    None
}

/// Whether a bundle can be played.
pub fn playable(catalog: &Vec<BundleContents>, name: &str) -> (has_sounds: bool)
    ensures
        has_sounds == is_playable(catalog@, name@),
{
    match find_contents(catalog, name) {
        Some(at) => bundle_has_sounds(name, &catalog[at].entries),
        None => false,
    }
}

/// Whether a picked sound is still there.
pub fn still_there(catalog: &Vec<BundleContents>, sound: &SelectedSound) -> (there: bool)
    ensures
        there == holds(catalog@, sound@),
{
    let at = match find_contents(catalog, sound.category.as_str()) {
        Some(at) => at,
        None => {
            return false;
        },
    };
    let entries = &catalog[at].entries;
    let ghost views = path_views(entries@);
    let mut i: usize = 0;
    while i < entries.len()
        invariant
            i <= entries@.len(),
            views == path_views(entries@),
            views == entries_of(catalog@, sound.category@),
            forall|j: int|
                0 <= j < i ==> !(is_sound(#[trigger] views[j]) && file_text(views[j]) == Some(
                    sound.filename@,
                )),
        decreases entries.len() - i,
    {
        assert(views[i as int] == entries@[i as int]@);
        if is_sound_file(&entries[i]) {
            if let Some(name) = text_name(&entries[i]) {
                if name == sound.filename {
                    assert(is_sound(views[i as int]) && file_text(views[i as int]) == Some(
                        sound.filename@,
                    ));
                    return true;
                }
            }
        }
        i += 1;
    }
    false
}

/// The sounds that a bundle lists are those that it holds.
pub proof fn law_listed_sounds_are_held(
    listing: Seq<PathView>,
    entries: Seq<PathView>,
    filename: Seq<char>,
)
    requires
        is_listing(listing, entries),
    ensures
        file_texts(listing).contains(filename) <==> holds_file(entries, filename),
{
    lemma_file_texts(listing, filename);
    if holds_file(entries, filename) {
        let i = choose|i: int|
            0 <= i < entries.len() && is_sound(#[trigger] entries[i]) && file_text(entries[i])
                == Some(filename);
        law_listing_holds_the_sounds(listing, entries, entries[i]);
        assert(entries.contains(entries[i]));
        let j = choose|j: int| 0 <= j < listing.len() && listing[j] == entries[i];
        assert(file_text(listing[j]) == Some(filename));
    }
    if file_texts(listing).contains(filename) {
        let j = choose|j: int|
            0 <= j < listing.len() && file_text(#[trigger] listing[j]) == Some(filename);
        law_listing_holds_the_sounds(listing, entries, listing[j]);
        assert(listing.contains(listing[j]));
        let i = choose|i: int| 0 <= i < entries.len() && entries[i] == listing[j];
        assert(is_sound(entries[i]));
    }
}

proof fn lemma_file_texts(paths: Seq<PathView>, filename: Seq<char>)
    ensures
        file_texts(paths).contains(filename) <==> exists|i: int|
            0 <= i < paths.len() && file_text(#[trigger] paths[i]) == Some(filename),
    decreases paths.len(),
{
    if paths.len() > 0 {
        let rest = paths.drop_last();
        lemma_file_texts(rest, filename);
        let earlier = file_texts(rest);
        let all = file_texts(paths);
        if earlier.contains(filename) {
            let i = choose|i: int| 0 <= i < earlier.len() && earlier[i] == filename;
            assert(all[i] == filename);
            let j = choose|j: int|
                0 <= j < rest.len() && file_text(#[trigger] rest[j]) == Some(filename);
            assert(file_text(paths[j]) == Some(filename));
        }
        if file_text(paths.last()) == Some(filename) {
            assert(all[earlier.len() as int] == filename);
            assert(file_text(paths[paths.len() - 1]) == Some(filename));
        }
        if all.contains(filename) && !earlier.contains(filename) {
            let i = choose|i: int| 0 <= i < all.len() && all[i] == filename;
            if i < earlier.len() {
                assert(earlier[i] == filename);
            }
            assert(file_text(paths.last()) == Some(filename));
        }
        if exists|i: int| 0 <= i < paths.len() && file_text(#[trigger] paths[i]) == Some(filename) {
            let i = choose|i: int|
                0 <= i < paths.len() && file_text(#[trigger] paths[i]) == Some(filename);
            if i < rest.len() {
                assert(file_text(rest[i]) == Some(filename));
            }
        }
    }
}

// ── Falling back ─────────────────────────────────────────────────────

/// The first bundle that has sounds; hidden ones count where they are allowed.
pub open spec fn first_bundle(bundles: Seq<InfoView>, hidden_too: bool) -> Option<Seq<char>>
    decreases bundles.len(),
{
    if bundles.len() == 0 {
        None
    } else if bundles[0].count > 0 && (hidden_too || !nsfw(bundles[0].name)) {
        Some(bundles[0].name)
    } else {
        first_bundle(bundles.drop_first(), hidden_too)
    }
}

/// The name, or no name at all.
pub open spec fn name_or_empty(name: Option<Seq<char>>) -> Seq<char> {
    match name {
        Some(name) => name,
        None => Seq::empty(),
    }
}

/// The bundle that takes the place of one that cannot be played: the first with
/// sounds that is not hidden, else the first with sounds, else none.
pub open spec fn fallback_bundle(bundles: Seq<InfoView>) -> Seq<char> {
    match first_bundle(bundles, false) {
        Some(name) => name,
        None => name_or_empty(first_bundle(bundles, true)),
    }
}

fn find_bundle(bundles: &Vec<BundleInfo>, hidden_too: bool) -> (found: Option<String>)
    ensures
        match found {
            Some(name) => first_bundle(info_views(bundles@), hidden_too) == Some(name@),
            None => first_bundle(info_views(bundles@), hidden_too) is None,
        },
{
    let ghost views = info_views(bundles@);
    let mut at: usize = 0;
    assert(views.skip(0) == views);
    while at < bundles.len()
        invariant
            at <= bundles@.len(),
            views == info_views(bundles@),
            first_bundle(views, hidden_too) == first_bundle(views.skip(at as int), hidden_too),
        decreases bundles.len() - at,
    {
        assert(views.skip(at as int)[0] == bundles@[at as int]@);
        assert(views.skip(at as int).drop_first() == views.skip(at + 1));
        let bundle = &bundles[at];
        if bundle.count > 0 && (hidden_too || !is_nsfw_category(bundle.name.as_str())) {
            return Some(bundle.name.clone());
        }
        at += 1;
    }
    None
}

/// The first bundle that has sounds, hidden or not; an empty name where there is
/// none.
pub fn any_bundle(bundles: &Vec<BundleInfo>) -> (name: String)
    ensures
        name@ == name_or_empty(first_bundle(info_views(bundles@), true)),
{
    match find_bundle(bundles, true) {
        Some(name) => name,
        None => String::new(),
    }
}

/// The bundle that takes the place of one that cannot be played.
pub fn replacement(bundles: &Vec<BundleInfo>) -> (name: String)
    ensures
        name@ == fallback_bundle(info_views(bundles@)),
{
    match find_bundle(bundles, false) {
        Some(name) => name,
        None => any_bundle(bundles),
    }
}

/// A bundle that falls back is hidden only where every bundle with sounds is.
pub proof fn law_fallback_avoids_hidden_bundles(bundles: Seq<InfoView>, at: int)
    requires
        0 <= at < bundles.len(),
        bundles[at].count > 0,
        !nsfw(bundles[at].name),
    ensures
        !nsfw(fallback_bundle(bundles)),
{
    lemma_first_bundle(bundles, at);
}

proof fn lemma_first_bundle(bundles: Seq<InfoView>, at: int)
    requires
        0 <= at < bundles.len(),
        bundles[at].count > 0,
        !nsfw(bundles[at].name),
    ensures
        first_bundle(bundles, false) matches Some(name) && !nsfw(name),
    decreases bundles.len(),
{
    if at > 0 && !(bundles[0].count > 0 && !nsfw(bundles[0].name)) {
        assert(bundles.drop_first()[at - 1] == bundles[at]);
        lemma_first_bundle(bundles.drop_first(), at - 1);
    }
}

/// A bundle has the entries that the first mention of its name in the catalog has,
/// and none where it is not mentioned.
pub proof fn law_the_first_mention_counts(catalog: Seq<BundleContents>, name: Seq<char>, at: int)
    requires
        forall|i: int| 0 <= i < at ==> (#[trigger] catalog[i]).name@ != name,
        0 <= at <= catalog.len(),
        at < catalog.len() ==> catalog[at].name@ == name,
    ensures
        at < catalog.len() ==> entries_of(catalog, name) == path_views(catalog[at].entries@),
        at == catalog.len() ==> entries_of(catalog, name).len() == 0,
    decreases catalog.len(),
{
    if catalog.len() > 0 && at > 0 {
        let rest = catalog.drop_first();
        assert(catalog[0].name@ != name);
        assert forall|i: int| 0 <= i < at - 1 implies (#[trigger] rest[i]).name@ != name by {
            assert(rest[i] == catalog[i + 1]);
        }
        if at < catalog.len() {
            assert(rest[at - 1] == catalog[at]);
        }
        law_the_first_mention_counts(rest, name, at - 1);
    }
}

/// A bundle can be played just where its name is more than white space and one of
/// its entries is a sound.
pub proof fn law_what_can_be_played(catalog: Seq<BundleContents>, name: Seq<char>)
    ensures
        is_playable(catalog, name) <==> trimmed(name) != Seq::<char>::empty() && exists|i: int|
            0 <= i < entries_of(catalog, name).len() && is_sound(
                #[trigger] entries_of(catalog, name)[i],
            ),
{
    if trimmed(name).len() == 0 {
        assert(trimmed(name) =~= Seq::<char>::empty());
    }
}

/// The first bundle with sounds is just that: it has sounds and may be used, and no
/// bundle before it does; there is none where no bundle does.
pub proof fn law_the_first_bundle_with_sounds(bundles: Seq<InfoView>, hidden_too: bool, at: int)
    requires
        0 <= at <= bundles.len(),
        forall|i: int|
            0 <= i < at ==> (#[trigger] bundles[i]).count == 0 || (!hidden_too && nsfw(
                bundles[i].name,
            )),
        at < bundles.len() ==> bundles[at].count > 0 && (hidden_too || !nsfw(bundles[at].name)),
    ensures
        at < bundles.len() ==> first_bundle(bundles, hidden_too) == Some(bundles[at].name),
        at == bundles.len() ==> first_bundle(bundles, hidden_too) is None,
    decreases bundles.len(),
{
    if bundles.len() > 0 && at > 0 {
        let rest = bundles.drop_first();
        assert(bundles[0].count == 0 || (!hidden_too && nsfw(bundles[0].name)));
        assert forall|i: int| 0 <= i < at - 1 implies (#[trigger] rest[i]).count == 0 || (
        !hidden_too && nsfw(rest[i].name)) by {
            assert(rest[i] == bundles[i + 1]);
        }
        if at < bundles.len() {
            assert(rest[at - 1] == bundles[at]);
        }
        law_the_first_bundle_with_sounds(rest, hidden_too, at - 1);
    }
}

/// What takes the place of a bundle: the first that has sounds and is not hidden; a
/// hidden one where there is no other; and no name at all where nothing has sounds.
pub proof fn law_what_takes_the_place(bundles: Seq<InfoView>)
    ensures
        first_bundle(bundles, false) matches Some(name) ==> fallback_bundle(bundles) == name,
        first_bundle(bundles, false) is None && first_bundle(bundles, true) is Some
            ==> fallback_bundle(bundles) == first_bundle(bundles, true)->0,
        first_bundle(bundles, false) is None && first_bundle(bundles, true) is None
            ==> fallback_bundle(bundles).len() == 0,
{
}

} // verus!
