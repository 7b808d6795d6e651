//! What the user's commands do to the settings, and what follows from them.

use vstd::prelude::*;

use crate::catalog::{
    any_bundle, entries_of, fallback_bundle, first_bundle, holds, is_playable,
    law_the_first_bundle_with_sounds, name_or_empty, playable, replacement, still_there,
    BundleContents,
};
use crate::cooldown::{is_due, Cooldown, NANOS_PER_MILLI};
use crate::detector::{DetectionMode, DetectorCmd};
use crate::level::Level;
use crate::lists::{
    lemma_filter_all, lemma_filter_holds, lemma_filter_step, lemma_filter_twice,
    lemma_filters_agree,
};
use crate::paths::{path_views, strictly_ascending, PathView, SoundPath};
use crate::player::{
    info_views, is_selected, play_selection, BundleInfo, InfoView, PickedFile, PlayCmd,
};
use crate::ports::{
    find_rule, first_rule, is_first_of_kind, law_rename_can_be_undone,
    law_repair_keeps_the_first_rule, law_the_first_rule_counts, lemma_complete_rules_stay,
    renamed, rule_views, update_rule_bundle, PortEvent, PortRule, RuleView,
};
use crate::settings::{
    default_albums, default_albums_spec, is_allowed, is_nsfw_category,
    law_validate_is_idempotent, law_validated_settings_are_in_range, names, nsfw, order_views,
    sound_views, threshold, validated, volume_out, OrderView, SelectedSound, Settings,
    SettingsView, SoundOrder, SoundView, ONE,
};
use crate::text::same_text;

verus! {

// ── Keeping the settings playable ────────────────────────────────────

/// The rule can be followed: its bundle can be played and may be shown.
pub open spec fn is_usable_rule(
    rule: RuleView,
    nsfw_enabled: bool,
    catalog: Seq<BundleContents>,
) -> bool {
    is_playable(catalog, rule.bundle) && is_allowed(rule.bundle, nsfw_enabled)
}

/// The rules, with another bundle in those that cannot be followed.
pub open spec fn usable_rules(
    rules: Seq<RuleView>,
    nsfw_enabled: bool,
    bundles: Seq<InfoView>,
    catalog: Seq<BundleContents>,
) -> Seq<RuleView> {
    Seq::new(
        rules.len(),
        |i: int|
            if is_usable_rule(rules[i], nsfw_enabled, catalog) {
                rules[i]
            } else {
                RuleView { bundle: fallback_bundle(bundles), ..rules[i] }
            },
    )
}

pub open spec fn keeps_category(
    nsfw_enabled: bool,
    catalog: Seq<BundleContents>,
) -> spec_fn(Seq<char>) -> bool {
    |category: Seq<char>| is_playable(catalog, category) && is_allowed(category, nsfw_enabled)
}

pub open spec fn keeps_sound(
    nsfw_enabled: bool,
    catalog: Seq<BundleContents>,
) -> spec_fn(SoundView) -> bool {
    |sound: SoundView| is_allowed(sound.category, nsfw_enabled) && holds(catalog, sound)
}

/// The bundle that stands for the selection: the first category, else that of the
/// first sound, else what it was.
pub open spec fn leading_bundle(
    categories: Seq<Seq<char>>,
    sounds: Seq<SoundView>,
    bundle: Seq<char>,
) -> Seq<char> {
    if categories.len() > 0 {
        categories[0]
    } else if sounds.len() > 0 {
        sounds[0].category
    } else {
        bundle
    }
}

/// The settings once everything is out of them that the library does not hold.
pub open spec fn sanitized(
    settings: SettingsView,
    bundles: Seq<InfoView>,
    catalog: Seq<BundleContents>,
) -> SettingsView {
    let selected_categories = settings.selected_categories.filter(
        keeps_category(settings.nsfw_enabled, catalog),
    );
    let selected_sounds = settings.selected_sounds.filter(
        keeps_sound(settings.nsfw_enabled, catalog),
    );
    let bundle = leading_bundle(
        selected_categories,
        selected_sounds,
        if is_playable(catalog, settings.bundle) {
            settings.bundle
        } else {
            fallback_bundle(bundles)
        },
    );
    SettingsView {
        bundle,
        selected_categories,
        selected_sounds,
        port_rules: usable_rules(settings.port_rules, settings.nsfw_enabled, bundles, catalog),
        enabled: settings.enabled && bundle.len() > 0,
        ..settings
    }
}

fn kept_categories(
    categories: &Vec<String>,
    nsfw_enabled: bool,
    catalog: &Vec<BundleContents>,
) -> (kept: Vec<String>)
    ensures
        names(kept@) == names(categories@).filter(keeps_category(nsfw_enabled, catalog@)),
{
    let ghost all = names(categories@);
    let ghost keep = keeps_category(nsfw_enabled, catalog@);
    let mut kept: Vec<String> = Vec::new();
    let mut i: usize = 0;
    assert(all.take(0).filter(keep) == Seq::<Seq<char>>::empty()) by {
        reveal(Seq::filter);
    }
    assert(names(kept@) == Seq::<Seq<char>>::empty());
    while i < categories.len()
        invariant
            i <= categories@.len(),
            all == names(categories@),
            keep == keeps_category(nsfw_enabled, catalog@),
            names(kept@) == all.take(i as int).filter(keep),
        decreases categories.len() - i,
    {
        proof {
            lemma_filter_step(all, keep, i as int);
        }
        let category = categories[i].as_str();
        if playable(catalog, category) && (nsfw_enabled || !is_nsfw_category(category)) {
            let copy = categories[i].clone();
            assert(names(kept@.push(copy)) == names(kept@).push(copy@));
            kept.push(copy);
        }
        i += 1;
    }
    assert(all.take(all.len() as int) == all);
    kept
}

fn kept_sounds(
    sounds: &Vec<SelectedSound>,
    nsfw_enabled: bool,
    catalog: &Vec<BundleContents>,
) -> (kept: Vec<SelectedSound>)
    ensures
        sound_views(kept@) == sound_views(sounds@).filter(keeps_sound(nsfw_enabled, catalog@)),
{
    let ghost all = sound_views(sounds@);
    let ghost keep = keeps_sound(nsfw_enabled, catalog@);
    let mut kept: Vec<SelectedSound> = Vec::new();
    let mut i: usize = 0;
    assert(all.take(0).filter(keep) == Seq::<SoundView>::empty()) by {
        reveal(Seq::filter);
    }
    assert(sound_views(kept@) == Seq::<SoundView>::empty());
    while i < sounds.len()
        invariant
            i <= sounds@.len(),
            all == sound_views(sounds@),
            keep == keeps_sound(nsfw_enabled, catalog@),
            sound_views(kept@) == all.take(i as int).filter(keep),
        decreases sounds.len() - i,
    {
        proof {
            lemma_filter_step(all, keep, i as int);
        }
        let sound = &sounds[i];
        if (nsfw_enabled || !is_nsfw_category(sound.category.as_str())) && still_there(
            catalog,
            sound,
        ) {
            let copy = sound.clone();
            assert(sound_views(kept@.push(copy)) == sound_views(kept@).push(copy@));
            kept.push(copy);
        }
        i += 1;
    }
    assert(all.take(all.len() as int) == all);
    kept
}

fn mend_rules(
    rules: &mut Vec<PortRule>,
    nsfw_enabled: bool,
    fallback: &str,
    catalog: &Vec<BundleContents>,
    Ghost(bundles): Ghost<Seq<InfoView>>,
)
    requires
        fallback@ == fallback_bundle(bundles),
    ensures
        rule_views(final(rules)@) == usable_rules(
            rule_views(old(rules)@),
            nsfw_enabled,
            bundles,
            catalog@,
        ),
{
    let ghost before = rule_views(rules@);
    let ghost after = usable_rules(before, nsfw_enabled, bundles, catalog@);
    let mut i: usize = 0;
    while i < rules.len()
        invariant
            i <= rules@.len(),
            rules@.len() == before.len(),
            after == usable_rules(before, nsfw_enabled, bundles, catalog@),
            fallback@ == fallback_bundle(bundles),
            forall|j: int| 0 <= j < i ==> (#[trigger] rules@[j])@ == after[j],
            forall|j: int| i <= j < rules@.len() ==> (#[trigger] rules@[j])@ == before[j],
        decreases rules.len() - i,
    {
        assert(rules@[i as int]@ == before[i as int]);
        let usable = playable(catalog, rules[i].bundle.as_str()) && (nsfw_enabled
            || !is_nsfw_category(rules[i].bundle.as_str()));
        if !usable {
            rules[i].bundle = fallback.to_string();
        }
        assert(rules@[i as int]@ == after[i as int]);
        i += 1;
    }
    assert(rule_views(rules@) == after);
}

/// Takes out of the settings what the library does not hold. `bundles` are all
/// bundles of the library; `catalog` tells what is in those that the settings
/// mention.
pub fn sanitize_settings_for_available_bundles(
    settings: &mut Settings,
    bundles: &Vec<BundleInfo>,
    catalog: &Vec<BundleContents>,
)
    ensures
        final(settings)@ == sanitized(old(settings)@, info_views(bundles@), catalog@),
{
    let ghost before = settings@;
    let nsfw_enabled = settings.nsfw_enabled;
    let fallback = replacement(bundles);
    if !playable(catalog, settings.bundle.as_str()) {
        settings.bundle = fallback.clone();
    }
    mend_rules(
        &mut settings.port_rules,
        nsfw_enabled,
        fallback.as_str(),
        catalog,
        Ghost(info_views(bundles@)),
    );
    settings.selected_categories =
    kept_categories(&settings.selected_categories, nsfw_enabled, catalog);
    settings.selected_sounds = kept_sounds(&settings.selected_sounds, nsfw_enabled, catalog);
    if settings.selected_categories.len() > 0 {
        assert(settings@.selected_categories[0] == settings.selected_categories@[0]@);
        settings.bundle = settings.selected_categories[0].clone();
    } else if settings.selected_sounds.len() > 0 {
        assert(settings@.selected_sounds[0] == settings.selected_sounds@[0]@);
        settings.bundle = settings.selected_sounds[0].category.clone();
    }
    if settings.enabled && settings.bundle.as_str().is_empty() {
        settings.enabled = false;
    }
    proof {
        let after = sanitized(before, info_views(bundles@), catalog@);
        assert(settings@.bundle == after.bundle);
        assert(settings@.enabled == after.enabled);
    }
}

// ── Which bundles have to be looked at ───────────────────────────────

/// The names of all bundles that the settings mention.
pub open spec fn mentions(settings: SettingsView, name: Seq<char>) -> bool {
    ||| name == settings.bundle
    ||| settings.selected_categories.contains(name)
    ||| exists|i: int|
        0 <= i < settings.selected_sounds.len() && (#[trigger] settings.selected_sounds[i]).category
            == name
    ||| exists|i: int|
        0 <= i < settings.port_rules.len() && (#[trigger] settings.port_rules[i]).bundle == name
}

/// The names of the bundles that a catalog for these settings has to tell of.
pub fn mentioned_bundles(settings: &Settings) -> (mentioned: Vec<String>)
    ensures
        forall|name: Seq<char>| #[trigger]
            names(mentioned@).contains(name) <==> mentions(settings@, name),
{
    let ghost view = settings@;
    let mut mentioned: Vec<String> = Vec::new();
    mentioned.push(settings.bundle.clone());
    let ghost mut seen: Set<Seq<char>> = Set::empty().insert(view.bundle);
    assert(names(mentioned@) =~= seq![view.bundle]);
    assert forall|name: Seq<char>| #[trigger] names(mentioned@).contains(name) <==> seen.contains(
        name,
    ) by {
        if name == view.bundle {
            assert(names(mentioned@)[0] == name);
        }
    }
    let mut i: usize = 0;
    while i < settings.selected_categories.len()
        invariant
            i <= settings.selected_categories@.len(),
            view == settings@,
            forall|name: Seq<char>| #[trigger]
                names(mentioned@).contains(name) <==> seen.contains(name),
            forall|name: Seq<char>| #[trigger]
                seen.contains(name) <==> name == view.bundle || view.selected_categories.take(
                    i as int,
                ).contains(name),
        decreases settings.selected_categories.len() - i,
    {
        let ghost list = view.selected_categories;
        let name = settings.selected_categories[i].clone();
        proof {
            assert(name@ == list[i as int]);
            lemma_mention(mentioned@, name, seen);
            assert(list.take(i + 1) == list.take(i as int).push(name@));
            assert forall|other: Seq<char>| #[trigger]
                list.take(i + 1).contains(other) <==> other == name@ || list.take(
                    i as int,
                ).contains(other) by {
                lemma_push_contains(list.take(i as int), name@, other);
            }
            seen = seen.insert(name@);
        }
        mentioned.push(name);
        i += 1;
    }
    assert(view.selected_categories.take(view.selected_categories.len() as int)
        == view.selected_categories);
    i = 0;
    while i < settings.selected_sounds.len()
        invariant
            i <= settings.selected_sounds@.len(),
            view == settings@,
            forall|name: Seq<char>| #[trigger]
                names(mentioned@).contains(name) <==> seen.contains(name),
            forall|name: Seq<char>| #[trigger]
                seen.contains(name) <==> name == view.bundle || view.selected_categories.contains(
                    name,
                ) || exists|j: int|
                    0 <= j < i && (#[trigger] view.selected_sounds[j]).category == name,
        decreases settings.selected_sounds.len() - i,
    {
        let name = settings.selected_sounds[i].category.clone();
        proof {
            assert(view.selected_sounds[i as int].category == name@);
            lemma_mention(mentioned@, name, seen);
            seen = seen.insert(name@);
        }
        mentioned.push(name);
        i += 1;
    }
    i = 0;
    while i < settings.port_rules.len()
        invariant
            i <= settings.port_rules@.len(),
            view == settings@,
            forall|name: Seq<char>| #[trigger]
                names(mentioned@).contains(name) <==> seen.contains(name),
            forall|name: Seq<char>| #[trigger]
                seen.contains(name) <==> name == view.bundle || view.selected_categories.contains(
                    name,
                ) || (exists|j: int|
                    0 <= j < view.selected_sounds.len() && (#[trigger] view.selected_sounds[j]).category
                        == name) || exists|j: int|
                    0 <= j < i && (#[trigger] view.port_rules[j]).bundle == name,
        decreases settings.port_rules.len() - i,
    {
        let name = settings.port_rules[i].bundle.clone();
        proof {
            assert(view.port_rules[i as int].bundle == name@);
            lemma_mention(mentioned@, name, seen);
            seen = seen.insert(name@);
        }
        mentioned.push(name);
        i += 1;
    }
    mentioned
}

proof fn lemma_push_contains(list: Seq<Seq<char>>, name: Seq<char>, other: Seq<char>)
    ensures
        list.push(name).contains(other) <==> other == name || list.contains(other),
{
    if list.contains(other) {
        let i = choose|i: int| 0 <= i < list.len() && list[i] == other;
        assert(list.push(name)[i] == other);
    }
    assert(list.push(name)[list.len() as int] == name);
    if list.push(name).contains(other) {
        let i = choose|i: int| 0 <= i < list.push(name).len() && list.push(name)[i] == other;
        if i < list.len() {
            assert(list[i] == other);
        }
    }
}

proof fn lemma_mention(mentioned: Seq<String>, name: String, seen: Set<Seq<char>>)
    requires
        forall|other: Seq<char>| #[trigger]
            names(mentioned).contains(other) <==> seen.contains(other),
    ensures
        forall|other: Seq<char>| #[trigger]
            names(mentioned.push(name)).contains(other) <==> seen.insert(name@).contains(other),
{
    assert(names(mentioned.push(name)) == names(mentioned).push(name@));
    assert forall|other: Seq<char>| #[trigger]
        names(mentioned.push(name)).contains(other) <==> seen.insert(name@).contains(other) by {
        lemma_push_contains(names(mentioned), name@, other);
    }
}

// ── Commands ─────────────────────────────────────────────────────────

/// The settings as they are saved.
pub open spec fn saved(
    settings: SettingsView,
    bundles: Seq<InfoView>,
    catalog: Seq<BundleContents>,
) -> SettingsView {
    sanitized(validated(settings), bundles, catalog)
}

pub open spec fn toggled(settings: SettingsView) -> SettingsView {
    SettingsView { enabled: !settings.enabled, ..settings }
}

/// Makes settings fit to be saved. Whatever comes from outside goes through here:
/// a file, the user's form, a selection that is to be tried.
pub fn save_settings(
    settings: &mut Settings,
    bundles: &Vec<BundleInfo>,
    catalog: &Vec<BundleContents>,
)
    ensures
        final(settings)@ == saved(old(settings)@, info_views(bundles@), catalog@),
{
    settings.validate();
    sanitize_settings_for_available_bundles(settings, bundles, catalog);
}

/// Switches detection on or off; says whether it is on.
pub fn toggle_enabled(
    settings: &mut Settings,
    bundles: &Vec<BundleInfo>,
    catalog: &Vec<BundleContents>,
) -> (enabled: bool)
    ensures
        final(settings)@ == sanitized(toggled(old(settings)@), info_views(bundles@), catalog@),
        enabled == final(settings)@.enabled,
{
    settings.enabled = !settings.enabled;
    sanitize_settings_for_available_bundles(settings, bundles, catalog);
    settings.enabled
}

/// Switches detection on or off from the tray; says whether it is on.
pub fn toggle_from_tray(
    settings: &mut Settings,
    bundles: &Vec<BundleInfo>,
    catalog: &Vec<BundleContents>,
) -> (enabled: bool)
    ensures
        final(settings)@ == saved(toggled(old(settings)@), info_views(bundles@), catalog@),
        enabled == final(settings)@.enabled,
{
    settings.enabled = !settings.enabled;
    save_settings(settings, bundles, catalog);
    settings.enabled
}

/// The entry of the tray's menu that switches detection.
pub fn tray_label(enabled: bool) -> (label: &'static str)
    ensures
        label@ == if enabled {
            "Pause"@
        } else {
            "Resume"@
        },
{
    if enabled {
        "Pause"
    } else {
        "Resume"
    }
}

/// What the settings command the detector to do.
pub open spec fn command_of(settings: SettingsView) -> DetectorCmd {
    if settings.enabled {
        DetectorCmd::Start {
            mode: settings.detection_mode,
            threshold: threshold(settings),
            cooldown_ms: settings.cooldown_ms,
        }
    } else {
        DetectorCmd::Stop
    }
}

/// What the settings command the detector to do.
pub fn detector_command(settings: &Settings) -> (command: DetectorCmd)
    ensures
        command == command_of(settings@),
{
    if settings.enabled {
        DetectorCmd::Start {
            mode: settings.detection_mode,
            threshold: settings.detection_threshold(),
            cooldown_ms: settings.cooldown_ms,
        }
    } else {
        DetectorCmd::Stop
    }
}

/// Why a selection could not be tried.
#[derive(Debug, Clone, Copy, PartialEq, Eq, Structural)]
pub enum SelectionError {
    Nothing,
}

impl SelectionError {
    /// The error in words.
    pub fn message(self) -> (message: &'static str)
        ensures
            message@ == "Choose a category or at least one sound first."@,
    {
        "Choose a category or at least one sound first."
    }
}

/// Tries a selection at full intensity: the request to the player, or an error
/// where the selection has no files.
pub fn test_selection(
    settings: &Settings,
    categories: &Vec<Vec<SoundPath>>,
    picked: &Vec<PickedFile>,
) -> (outcome: Result<PlayCmd, SelectionError>)
    ensures
        match outcome {
            Ok(request) => {
                &&& request.files@.len() > 0
                &&& strictly_ascending(path_views(request.files@))
                &&& selects(request, categories@, picked@)
                &&& request.playback_order == settings@.playback_order
                &&& request.volume == volume_out(settings@)
                &&& request.intensity == (Level { bits: ONE })
            },
            Err(_) => forall|path: PathView| !is_selected(path, categories@, picked@),
        },
{
    let request = play_selection(
        categories,
        picked,
        settings.playback_order,
        settings.output_volume(),
        Level::from_bits(ONE),
    );
    if request.files.len() == 0 {
        assert forall|path: PathView| !is_selected(path, categories@, picked@) by {
            assert(path_views(request.files@).len() == 0);
            assert(!path_views(request.files@).contains(path));
        }
        return Err(SelectionError::Nothing);
    }
    assert(selects(request, categories@, picked@));
    Ok(request)
}

/// The request is for the files of the selection and no others.
pub open spec fn selects(
    request: PlayCmd,
    categories: Seq<Vec<SoundPath>>,
    picked: Seq<PickedFile>,
) -> bool {
    forall|path: PathView| #[trigger]
        path_views(request.files@).contains(path) <==> is_selected(path, categories, picked)
}

/// The settings after a bundle was deleted: what played it plays the first bundle
/// that has sounds.
pub open spec fn without_bundle(
    settings: SettingsView,
    name: Seq<char>,
    bundles: Seq<InfoView>,
) -> SettingsView {
    let fallback = name_or_empty(first_bundle(bundles, true));
    validated(
        SettingsView {
            bundle: if settings.bundle == name {
                fallback
            } else {
                settings.bundle
            },
            port_rules: renamed(settings.port_rules, name, fallback),
            ..settings
        },
    )
}

/// Follows a bundle that was deleted. `bundles` are those that are left.
pub fn forget_bundle(settings: &mut Settings, name: &str, bundles: &Vec<BundleInfo>)
    ensures
        final(settings)@ == without_bundle(old(settings)@, name@, info_views(bundles@)),
{
    let fallback = any_bundle(bundles);
    follow_rename(settings, name, fallback.as_str());
}

/// The settings after a bundle was renamed.
pub open spec fn with_renamed_bundle(
    settings: SettingsView,
    old_name: Seq<char>,
    new_name: Seq<char>,
) -> SettingsView {
    validated(
        SettingsView {
            bundle: if settings.bundle == old_name {
                new_name
            } else {
                settings.bundle
            },
            port_rules: renamed(settings.port_rules, old_name, new_name),
            ..settings
        },
    )
}

/// Follows a bundle that was renamed.
pub fn follow_rename(settings: &mut Settings, old_name: &str, new_name: &str)
    ensures
        final(settings)@ == with_renamed_bundle(old(settings)@, old_name@, new_name@),
{
    if same_text(settings.bundle.as_str(), old_name) {
        settings.bundle = new_name.to_string();
    }
    update_rule_bundle(settings.port_rules.as_mut_slice(), old_name, new_name);
    settings.validate();
}

// ── The first start ──────────────────────────────────────────────────

/// The albums of the first starter library, which is no longer shipped.
pub open spec fn legacy_albums_spec() -> Seq<Seq<char>> {
    seq!["OG Memes"@, "Bollywood"@, "Hollywood"@, "TV & Internet"@, "After Dark"@]
}

pub open spec fn is_legacy(name: Seq<char>) -> bool {
    legacy_albums_spec().contains(name)
}

/// The albums of the first starter library.
pub fn legacy_starter_albums() -> (albums: Vec<String>)
    ensures
        names(albums@) == legacy_albums_spec(),
{
    let mut albums: Vec<String> = Vec::new();
    albums.push("OG Memes".to_string());
    albums.push("Bollywood".to_string());
    albums.push("Hollywood".to_string());
    albums.push("TV & Internet".to_string());
    albums.push("After Dark".to_string());
    assert(names(albums@) == legacy_albums_spec());
    albums
}

fn is_legacy_album(name: &str) -> (legacy: bool)
    ensures
        legacy == is_legacy(name@),
{
    let legacy = same_text(name, "OG Memes") || same_text(name, "Bollywood") || same_text(
        name,
        "Hollywood",
    ) || same_text(name, "TV & Internet") || same_text(name, "After Dark");
    proof {
        let albums = legacy_albums_spec();
        assert(albums[0] == "OG Memes"@ && albums[1] == "Bollywood"@ && albums[2] == "Hollywood"@);
        assert(albums[3] == "TV & Internet"@ && albums[4] == "After Dark"@);
    }
    legacy
}

/// The settings without the first starter library. It is taken out of them once
/// and never again: a later pack of the same name is the user's own.
pub open spec fn migrated(settings: SettingsView) -> SettingsView {
    if settings.legacy_starter_library_removed {
        settings
    } else {
        SettingsView {
            selected_categories: settings.selected_categories.filter(
                |category: Seq<char>| !is_legacy(category),
            ),
            selected_sounds: settings.selected_sounds.filter(
                |sound: SoundView| !is_legacy(sound.category),
            ),
            sound_orders: settings.sound_orders.filter(
                |order: OrderView| !is_legacy(order.category),
            ),
            album_order: default_albums_spec(),
            bundle: if is_legacy(settings.bundle) {
                Seq::empty()
            } else {
                settings.bundle
            },
            legacy_starter_library_removed: true,
            ..settings
        }
    }
}

fn current_categories(categories: &Vec<String>) -> (kept: Vec<String>)
    ensures
        names(kept@) == names(categories@).filter(|category: Seq<char>| !is_legacy(category)),
{
    let ghost all = names(categories@);
    let ghost keep = |category: Seq<char>| !is_legacy(category);
    let mut kept: Vec<String> = Vec::new();
    let mut i: usize = 0;
    assert(all.take(0).filter(keep) == Seq::<Seq<char>>::empty()) by {
        reveal(Seq::filter);
    }
    assert(names(kept@) == Seq::<Seq<char>>::empty());
    while i < categories.len()
        invariant
            i <= categories@.len(),
            all == names(categories@),
            keep == (|category: Seq<char>| !is_legacy(category)),
            names(kept@) == all.take(i as int).filter(keep),
        decreases categories.len() - i,
    {
        proof {
            lemma_filter_step(all, keep, i as int);
        }
        if !is_legacy_album(categories[i].as_str()) {
            let copy = categories[i].clone();
            assert(names(kept@.push(copy)) == names(kept@).push(copy@));
            kept.push(copy);
        }
        i += 1;
    }
    assert(all.take(all.len() as int) == all);
    kept
}

fn current_sounds(sounds: &Vec<SelectedSound>) -> (kept: Vec<SelectedSound>)
    ensures
        sound_views(kept@) == sound_views(sounds@).filter(
            |sound: SoundView| !is_legacy(sound.category),
        ),
{
    let ghost all = sound_views(sounds@);
    let ghost keep = |sound: SoundView| !is_legacy(sound.category);
    let mut kept: Vec<SelectedSound> = Vec::new();
    let mut i: usize = 0;
    assert(all.take(0).filter(keep) == Seq::<SoundView>::empty()) by {
        reveal(Seq::filter);
    }
    assert(sound_views(kept@) == Seq::<SoundView>::empty());
    while i < sounds.len()
        invariant
            i <= sounds@.len(),
            all == sound_views(sounds@),
            keep == (|sound: SoundView| !is_legacy(sound.category)),
            sound_views(kept@) == all.take(i as int).filter(keep),
        decreases sounds.len() - i,
    {
        proof {
            lemma_filter_step(all, keep, i as int);
        }
        if !is_legacy_album(sounds[i].category.as_str()) {
            let copy = sounds[i].clone();
            assert(sound_views(kept@.push(copy)) == sound_views(kept@).push(copy@));
            kept.push(copy);
        }
        i += 1;
    }
    assert(all.take(all.len() as int) == all);
    kept
}

fn current_orders(orders: &Vec<SoundOrder>) -> (kept: Vec<SoundOrder>)
    ensures
        order_views(kept@) == order_views(orders@).filter(
            |order: OrderView| !is_legacy(order.category),
        ),
{
    let ghost all = order_views(orders@);
    let ghost keep = |order: OrderView| !is_legacy(order.category);
    let mut kept: Vec<SoundOrder> = Vec::new();
    let mut i: usize = 0;
    assert(all.take(0).filter(keep) == Seq::<OrderView>::empty()) by {
        reveal(Seq::filter);
    }
    assert(order_views(kept@) == Seq::<OrderView>::empty());
    while i < orders.len()
        invariant
            i <= orders@.len(),
            all == order_views(orders@),
            keep == (|order: OrderView| !is_legacy(order.category)),
            order_views(kept@) == all.take(i as int).filter(keep),
        decreases orders.len() - i,
    {
        proof {
            lemma_filter_step(all, keep, i as int);
        }
        if !is_legacy_album(orders[i].category.as_str()) {
            let copy = orders[i].clone();
            assert(order_views(kept@.push(copy)) == order_views(kept@).push(copy@));
            kept.push(copy);
        }
        i += 1;
    }
    assert(all.take(all.len() as int) == all);
    kept
}

/// Takes the first starter library out of the settings, unless that has been done
/// before. Says whether its bundles are to be removed, too.
pub fn forget_legacy_albums(settings: &mut Settings) -> (remove: bool)
    ensures
        final(settings)@ == migrated(old(settings)@),
        remove == !old(settings)@.legacy_starter_library_removed,
{
    if settings.legacy_starter_library_removed {
        return false;
    }
    let ghost before = settings@;
    settings.selected_categories = current_categories(&settings.selected_categories);
    settings.selected_sounds = current_sounds(&settings.selected_sounds);
    settings.sound_orders = current_orders(&settings.sound_orders);
    settings.album_order = default_albums();
    if is_legacy_album(settings.bundle.as_str()) {
        settings.bundle = String::new();
    }
    settings.legacy_starter_library_removed = true;
    assert(settings@.bundle == migrated(before).bundle);
    true
}

// ── Ports ────────────────────────────────────────────────────────────

/// The least pause between two sounds for ports. Devices that negotiate and
/// chargers that toggle would bring rapid fire.
pub const LEAST_PORT_COOLDOWN_MS: u64 = 1500;

/// The intensity of a sound for a port: 0.9.
pub const PORT_INTENSITY: u32 = 0x3f66_6666;

/// What is played for a port.
#[derive(Debug)]
pub struct PortSound {
    pub bundle: String,
    pub volume: Level,
    pub intensity: Level,
}

/// What is played for a port, with its bundle as a sequence of characters.
pub struct PortSoundView {
    pub bundle: Seq<char>,
    pub volume: Level,
    pub intensity: Level,
}

impl View for PortSound {
    type V = PortSoundView;

    open spec fn view(&self) -> PortSoundView {
        PortSoundView { bundle: self.bundle@, volume: self.volume, intensity: self.intensity }
    }
}

pub open spec fn port_cooldown(settings: SettingsView) -> u64 {
    if settings.cooldown_ms > LEAST_PORT_COOLDOWN_MS {
        settings.cooldown_ms
    } else {
        LEAST_PORT_COOLDOWN_MS
    }
}

/// The bundle that the rules want for an event, if any.
pub open spec fn wanted_bundle(rules: Seq<RuleView>, event: PortEvent) -> Option<Seq<char>> {
    match first_rule(rules, event.kind) {
        Some(rule) => if (if event.connected {
            rule.on_connect
        } else {
            rule.on_disconnect
        }) && rule.bundle.len() > 0 {
            Some(rule.bundle)
        } else {
            None
        },
        None => None,
    }
}

/// One event: when a port last sounded, and what is played now.
pub open spec fn port_step(
    cooldown: Cooldown,
    settings: SettingsView,
    event: PortEvent,
    now: u64,
) -> (Cooldown, Option<PortSoundView>) {
    match wanted_bundle(settings.port_rules, event) {
        Some(bundle) => if is_due(
            cooldown.last as int,
            now as int,
            port_cooldown(settings) as int,
        ) {
            (
                Cooldown { last: now as i128 },
                Some(
                    PortSoundView {
                        bundle,
                        volume: volume_out(settings),
                        intensity: Level { bits: PORT_INTENSITY },
                    },
                ),
            )
        } else {
            (cooldown, None)
        },
        None => (cooldown, None),
    }
}

/// Decides what a port's event plays.
pub fn sound_for_port(cooldown: &mut Cooldown, settings: &Settings, event: PortEvent, now: u64) -> (
    sound: Option<PortSound>)
    ensures
        port_step(*old(cooldown), settings@, event, now) == (
            *final(cooldown),
            match sound {
                Some(sound) => Some(sound@),
                None => None,
            },
        ),
{
    let at = match find_rule(&settings.port_rules, event.kind) {
        Some(at) => at,
        None => {
            return None;
        },
    };
    let rule = &settings.port_rules[at];
    let fires = if event.connected {
        rule.on_connect
    } else {
        rule.on_disconnect
    };
    if !fires || rule.bundle.as_str().is_empty() {
        return None;
    }
    let pause: u64 = if settings.cooldown_ms > LEAST_PORT_COOLDOWN_MS {
        settings.cooldown_ms
    } else {
        LEAST_PORT_COOLDOWN_MS
    };
    if !cooldown.due(now, pause) {
        return None;
    }
    *cooldown = Cooldown { last: now as i128 };
    Some(
        PortSound {
            bundle: rule.bundle.clone(),
            volume: settings.output_volume(),
            intensity: Level::from_bits(PORT_INTENSITY),
        },
    )
}

// ── Laws ─────────────────────────────────────────────────────────────

proof fn lemma_rules_stay_usable(
    rules: Seq<RuleView>,
    nsfw_enabled: bool,
    bundles: Seq<InfoView>,
    catalog: Seq<BundleContents>,
)
    ensures
        ({
            let once = usable_rules(rules, nsfw_enabled, bundles, catalog);
            usable_rules(once, nsfw_enabled, bundles, catalog) == once
        }),
{
    let once = usable_rules(rules, nsfw_enabled, bundles, catalog);
    assert(usable_rules(once, nsfw_enabled, bundles, catalog) =~= once);
}

/// Settings that the library can play stay as they are.
pub proof fn law_sanitize_is_idempotent(
    settings: SettingsView,
    bundles: Seq<InfoView>,
    catalog: Seq<BundleContents>,
)
    ensures
        sanitized(sanitized(settings, bundles, catalog), bundles, catalog) == sanitized(
            settings,
            bundles,
            catalog,
        ),
{
    lemma_rules_stay_usable(settings.port_rules, settings.nsfw_enabled, bundles, catalog);
    lemma_filter_twice(
        settings.selected_categories,
        keeps_category(settings.nsfw_enabled, catalog),
    );
    lemma_filter_twice(settings.selected_sounds, keeps_sound(settings.nsfw_enabled, catalog));
}

proof fn lemma_sanitized_stays_valid(
    settings: SettingsView,
    bundles: Seq<InfoView>,
    catalog: Seq<BundleContents>,
)
    requires
        validated(settings) == settings,
    ensures
        validated(sanitized(settings, bundles, catalog)) == sanitized(settings, bundles, catalog),
{
    let clean = sanitized(settings, bundles, catalog);
    law_validated_settings_are_in_range(settings);
    lemma_complete_rules_stay(clean.port_rules);
    let keep_category = keeps_category(settings.nsfw_enabled, catalog);
    let keep_sound = keeps_sound(settings.nsfw_enabled, catalog);
    let allow_category = |category: Seq<char>| is_allowed(category, settings.nsfw_enabled);
    let allow_sound = |sound: SoundView| is_allowed(sound.category, settings.nsfw_enabled);
    assert forall|i: int| 0 <= i < clean.selected_categories.len() implies allow_category(
        #[trigger] clean.selected_categories[i],
    ) by {
        settings.selected_categories.lemma_filter_pred(keep_category, i);
    }
    assert forall|i: int| 0 <= i < clean.selected_sounds.len() implies allow_sound(
        #[trigger] clean.selected_sounds[i],
    ) by {
        settings.selected_sounds.lemma_filter_pred(keep_sound, i);
    }
    lemma_filter_all(clean.selected_categories, allow_category);
    lemma_filter_all(clean.selected_sounds, allow_sound);
    assert(validated(clean).selected_categories == clean.selected_categories);
    assert(validated(clean).selected_sounds == clean.selected_sounds);
    assert(validated(clean).port_rules == clean.port_rules);
    assert(validated(clean).sensitivity == validated(settings).sensitivity);
}

/// Saving settings that were saved changes nothing, as long as the library stays
/// the same.
pub proof fn law_saving_again_changes_nothing(
    settings: SettingsView,
    bundles: Seq<InfoView>,
    catalog: Seq<BundleContents>,
)
    ensures
        saved(saved(settings, bundles, catalog), bundles, catalog) == saved(
            settings,
            bundles,
            catalog,
        ),
{
    law_validate_is_idempotent(settings);
    lemma_sanitized_stays_valid(validated(settings), bundles, catalog);
    law_sanitize_is_idempotent(validated(settings), bundles, catalog);
}

/// What holds of sanitized settings: whatever is selected can be played and may
/// be shown; a rule can be followed or plays what every such rule falls back to;
/// and detection is on only where there is something to play.
pub proof fn law_sanitized_settings_can_be_played(
    settings: SettingsView,
    bundles: Seq<InfoView>,
    catalog: Seq<BundleContents>,
)
    ensures
        ({
            let clean = sanitized(settings, bundles, catalog);
            &&& forall|i: int|
                0 <= i < clean.selected_categories.len() ==> is_playable(
                    catalog,
                    #[trigger] clean.selected_categories[i],
                ) && is_allowed(clean.selected_categories[i], clean.nsfw_enabled)
            &&& forall|i: int|
                0 <= i < clean.selected_sounds.len() ==> holds(
                    catalog,
                    #[trigger] clean.selected_sounds[i],
                ) && is_allowed(clean.selected_sounds[i].category, clean.nsfw_enabled)
            &&& forall|i: int|
                0 <= i < clean.port_rules.len() ==> is_usable_rule(
                    #[trigger] clean.port_rules[i],
                    clean.nsfw_enabled,
                    catalog,
                ) || clean.port_rules[i].bundle == fallback_bundle(bundles)
            &&& clean.enabled ==> clean.bundle.len() > 0
            &&& command_of(clean) is Start ==> clean.bundle.len() > 0
        }),
{
    let clean = sanitized(settings, bundles, catalog);
    let keep_category = keeps_category(settings.nsfw_enabled, catalog);
    let keep_sound = keeps_sound(settings.nsfw_enabled, catalog);
    assert forall|i: int| 0 <= i < clean.selected_categories.len() implies keep_category(
        #[trigger] clean.selected_categories[i],
    ) by {
        settings.selected_categories.lemma_filter_pred(keep_category, i);
    }
    assert forall|i: int| 0 <= i < clean.selected_sounds.len() implies keep_sound(
        #[trigger] clean.selected_sounds[i],
    ) by {
        settings.selected_sounds.lemma_filter_pred(keep_sound, i);
    }
}

/// Sanitizing looks at no bundle that the settings do not mention: two catalogs
/// that agree on those give the same settings.
pub proof fn law_mentioned_bundles_suffice(
    settings: SettingsView,
    bundles: Seq<InfoView>,
    catalog: Seq<BundleContents>,
    other: Seq<BundleContents>,
)
    requires
        forall|name: Seq<char>| #[trigger]
            mentions(settings, name) ==> entries_of(catalog, name) == entries_of(other, name),
    ensures
        sanitized(settings, bundles, catalog) == sanitized(settings, bundles, other),
{
    let categories = settings.selected_categories;
    let sounds = settings.selected_sounds;
    let rules = settings.port_rules;
    assert(mentions(settings, settings.bundle));
    assert forall|i: int| 0 <= i < categories.len() implies keeps_category(
        settings.nsfw_enabled,
        catalog,
    )(#[trigger] categories[i]) == keeps_category(settings.nsfw_enabled, other)(categories[i]) by {
        assert(categories.contains(categories[i]));
        assert(mentions(settings, categories[i]));
    }
    assert forall|i: int| 0 <= i < sounds.len() implies keeps_sound(settings.nsfw_enabled, catalog)(
        #[trigger] sounds[i],
    ) == keeps_sound(settings.nsfw_enabled, other)(sounds[i]) by {
        assert(mentions(settings, sounds[i].category));
    }
    lemma_filters_agree(
        categories,
        keeps_category(settings.nsfw_enabled, catalog),
        keeps_category(settings.nsfw_enabled, other),
    );
    lemma_filters_agree(
        sounds,
        keeps_sound(settings.nsfw_enabled, catalog),
        keeps_sound(settings.nsfw_enabled, other),
    );
    assert forall|i: int| 0 <= i < rules.len() implies is_usable_rule(
        #[trigger] rules[i],
        settings.nsfw_enabled,
        catalog,
    ) == is_usable_rule(rules[i], settings.nsfw_enabled, other) by {
        assert(mentions(settings, rules[i].bundle));
    }
    assert(usable_rules(rules, settings.nsfw_enabled, bundles, catalog) =~= usable_rules(
        rules,
        settings.nsfw_enabled,
        bundles,
        other,
    ));
}

/// Once a bundle was renamed, no rule plays it under its old name, and it does not
/// lead the selection under that name. A deleted bundle is followed like one that
/// was renamed to what takes its place.
pub proof fn law_old_names_are_not_played(
    settings: SettingsView,
    old_name: Seq<char>,
    new_name: Seq<char>,
    bundles: Seq<InfoView>,
)
    requires
        validated(settings) == settings,
        old_name != new_name,
    ensures
        ({
            let after = with_renamed_bundle(settings, old_name, new_name);
            &&& after.bundle != old_name
            &&& forall|i: int|
                0 <= i < after.port_rules.len() ==> (#[trigger] after.port_rules[i]).bundle
                    != old_name
        }),
        without_bundle(settings, old_name, bundles) == with_renamed_bundle(
            settings,
            old_name,
            name_or_empty(first_bundle(bundles, true)),
        ),
{
    law_validated_settings_are_in_range(settings);
    lemma_complete_rules_stay(renamed(settings.port_rules, old_name, new_name));
    law_rename_can_be_undone(settings.port_rules, old_name, new_name);
}

/// Switching detection off and on again, or on and off, restores settings that
/// can be played.
pub proof fn law_toggle_can_be_undone(
    settings: SettingsView,
    bundles: Seq<InfoView>,
    catalog: Seq<BundleContents>,
)
    requires
        sanitized(settings, bundles, catalog) == settings,
        settings.bundle.len() > 0,
    ensures
        sanitized(toggled(sanitized(toggled(settings), bundles, catalog)), bundles, catalog)
            == settings,
{
    assert(sanitized(toggled(settings), bundles, catalog) == toggled(settings));
    assert(toggled(toggled(settings)) == settings);
}

/// The first starter library is taken out once: nothing of it is left, and doing
/// it again changes nothing.
pub proof fn law_migration_happens_once(settings: SettingsView)
    ensures
        migrated(migrated(settings)) == migrated(settings),
        migrated(settings).legacy_starter_library_removed,
        !settings.legacy_starter_library_removed ==> {
            let after = migrated(settings);
            &&& !is_legacy(after.bundle)
            &&& forall|i: int|
                0 <= i < after.selected_categories.len() ==> !is_legacy(
                    #[trigger] after.selected_categories[i],
                )
            &&& forall|i: int|
                0 <= i < after.selected_sounds.len() ==> !is_legacy(
                    (#[trigger] after.selected_sounds[i]).category,
                )
            &&& forall|i: int|
                0 <= i < after.sound_orders.len() ==> !is_legacy(
                    (#[trigger] after.sound_orders[i]).category,
                )
        },
{
    broadcast use vstd::seq_lib::group_filter_ensures;

    reveal_strlit("OG Memes");
    reveal_strlit("Bollywood");
    reveal_strlit("Hollywood");
    reveal_strlit("TV & Internet");
    reveal_strlit("After Dark");
    assert("OG Memes"@.len() > 0 && "Bollywood"@.len() > 0 && "Hollywood"@.len() > 0);
    assert("TV & Internet"@.len() > 0 && "After Dark"@.len() > 0);
    assert forall|i: int| 0 <= i < legacy_albums_spec().len() implies (
    #[trigger] legacy_albums_spec()[i]).len() > 0 by {}
}

/// When a port last sounded, after the first events of a session.
pub open spec fn port_run(
    cooldown: Cooldown,
    settings: SettingsView,
    events: Seq<(PortEvent, u64)>,
    seen: nat,
) -> Cooldown
    decreases seen,
{
    if seen == 0 {
        cooldown
    } else {
        let at = (seen - 1) as nat;
        let before = port_run(cooldown, settings, events, at);
        port_step(before, settings, events[at as int].0, events[at as int].1).0
    }
}

/// The event with that number is heard.
pub open spec fn port_sounds(
    cooldown: Cooldown,
    settings: SettingsView,
    events: Seq<(PortEvent, u64)>,
    at: int,
) -> bool {
    let before = port_run(cooldown, settings, events, at as nat);
    port_step(before, settings, events[at].0, events[at].1).1 is Some
}

proof fn lemma_ports_remember(
    cooldown: Cooldown,
    settings: SettingsView,
    events: Seq<(PortEvent, u64)>,
    at: int,
    seen: nat,
)
    requires
        0 <= at < seen <= events.len(),
        port_sounds(cooldown, settings, events, at),
    ensures
        port_run(cooldown, settings, events, seen).last >= events[at].1,
    decreases seen,
{
    if at + 1 < seen {
        lemma_ports_remember(cooldown, settings, events, at, (seen - 1) as nat);
    }
}

/// Ports never bring rapid fire: between two of their sounds lies the user's
/// cooldown, and never less than a second and a half.
pub proof fn law_ports_keep_their_distance(
    cooldown: Cooldown,
    settings: SettingsView,
    events: Seq<(PortEvent, u64)>,
    first: int,
    second: int,
)
    requires
        0 <= first < second < events.len(),
        port_sounds(cooldown, settings, events, first),
        port_sounds(cooldown, settings, events, second),
    ensures
        events[second].1 - events[first].1 >= settings.cooldown_ms * NANOS_PER_MILLI,
        events[second].1 - events[first].1 >= LEAST_PORT_COOLDOWN_MS * NANOS_PER_MILLI,
{
    lemma_ports_remember(cooldown, settings, events, first, second as nat);
    let pause = port_cooldown(settings);
    assert(events[second].1 - events[first].1 >= pause * NANOS_PER_MILLI);
    assert(settings.cooldown_ms * NANOS_PER_MILLI <= pause * NANOS_PER_MILLI) by (nonlinear_arith)
        requires
            settings.cooldown_ms <= pause,
    ;
    assert(LEAST_PORT_COOLDOWN_MS * NANOS_PER_MILLI <= pause * NANOS_PER_MILLI)
        by (nonlinear_arith)
        requires
            LEAST_PORT_COOLDOWN_MS <= pause,
    ;
}

/// Only an event that a rule asks for is heard, with the bundle of that rule.
pub proof fn law_ports_follow_their_rules(
    cooldown: Cooldown,
    settings: SettingsView,
    event: PortEvent,
    now: u64,
)
    ensures
        port_step(cooldown, settings, event, now).1 matches Some(sound) ==> {
            let rule = first_rule(settings.port_rules, event.kind)->0;
            &&& first_rule(settings.port_rules, event.kind) is Some
            &&& sound.bundle == rule.bundle && rule.bundle.len() > 0
            &&& event.connected ==> rule.on_connect
            &&& !event.connected ==> rule.on_disconnect
        },
{
}

// ── Laws: what is done, and what is left alone ───────────────────────

/// What a rule asks for sounds: where the first rule of the event's kind wants the
/// event, has a bundle, and the last sound of a port lies far enough back, that
/// bundle is played, and the event's time is remembered.
pub proof fn law_what_a_rule_asks_for_sounds(
    cooldown: Cooldown,
    settings: SettingsView,
    event: PortEvent,
    now: u64,
    at: int,
)
    requires
        is_first_of_kind(settings.port_rules, event.kind, at),
        event.connected ==> settings.port_rules[at].on_connect,
        !event.connected ==> settings.port_rules[at].on_disconnect,
        settings.port_rules[at].bundle.len() > 0,
        now - cooldown.last >= settings.cooldown_ms * 1_000_000,
        now - cooldown.last >= 1500 * 1_000_000,
    ensures
        port_step(cooldown, settings, event, now).1 is Some,
        ({
            let sound = port_step(cooldown, settings, event, now).1->0;
            &&& sound.bundle == settings.port_rules[at].bundle
            &&& settings.use_system_volume ==> sound.volume == (Level { bits: ONE })
            &&& !settings.use_system_volume ==> sound.volume == settings.volume
            &&& sound.intensity == (Level { bits: PORT_INTENSITY })
        }),
        port_step(cooldown, settings, event, now).0.last == now,
{
    law_repair_keeps_the_first_rule(settings.port_rules, at);
    law_the_first_rule_counts(settings.port_rules, event.kind);
}

/// Nothing else sounds: a sound needs a rule of the event's kind that wants the
/// event and has a bundle, and the last sound of a port far enough back. An event
/// without a sound is forgotten.
pub proof fn law_nothing_else_sounds(
    cooldown: Cooldown,
    settings: SettingsView,
    event: PortEvent,
    now: u64,
)
    ensures
        port_step(cooldown, settings, event, now).1 is Some ==> {
            &&& exists|at: int| #[trigger]
                is_first_of_kind(settings.port_rules, event.kind, at) && (if event.connected {
                    settings.port_rules[at].on_connect
                } else {
                    settings.port_rules[at].on_disconnect
                }) && settings.port_rules[at].bundle.len() > 0
            &&& now - cooldown.last >= settings.cooldown_ms * 1_000_000
            &&& now - cooldown.last >= 1500 * 1_000_000
        },
        port_step(cooldown, settings, event, now).1 is None ==> port_step(
            cooldown,
            settings,
            event,
            now,
        ).0 == cooldown,
{
    law_the_first_rule_counts(settings.port_rules, event.kind);
}

/// Sanitizing keeps what can be played: a category stays just where it has sounds
/// and may be shown, a picked sound just where it is there and may be shown, and a
/// selection in which nothing is amiss stays as it is, in its order.
pub proof fn law_sanitizing_keeps_what_can_be_played(
    settings: SettingsView,
    bundles: Seq<InfoView>,
    catalog: Seq<BundleContents>,
)
    ensures
        ({
            let clean = sanitized(settings, bundles, catalog);
            let consent = settings.nsfw_enabled;
            &&& forall|category: Seq<char>| #[trigger]
                clean.selected_categories.contains(category)
                    <==> settings.selected_categories.contains(category) && is_playable(
                    catalog,
                    category,
                ) && (consent || !nsfw(category))
            &&& forall|sound: SoundView| #[trigger]
                clean.selected_sounds.contains(sound) <==> settings.selected_sounds.contains(sound)
                    && holds(catalog, sound) && (consent || !nsfw(sound.category))
            &&& (forall|i: int|
                0 <= i < settings.selected_categories.len() ==> is_playable(
                    catalog,
                    #[trigger] settings.selected_categories[i],
                ) && (consent || !nsfw(settings.selected_categories[i])))
                ==> clean.selected_categories == settings.selected_categories
            &&& (forall|i: int|
                0 <= i < settings.selected_sounds.len() ==> holds(
                    catalog,
                    #[trigger] settings.selected_sounds[i],
                ) && (consent || !nsfw(settings.selected_sounds[i].category)))
                ==> clean.selected_sounds == settings.selected_sounds
        }),
{
    let clean = sanitized(settings, bundles, catalog);
    let categories = settings.selected_categories;
    let sounds = settings.selected_sounds;
    let keep_category = keeps_category(settings.nsfw_enabled, catalog);
    let keep_sound = keeps_sound(settings.nsfw_enabled, catalog);
    assert forall|category: Seq<char>| #[trigger]
        clean.selected_categories.contains(category) <==> categories.contains(category)
            && keep_category(category) by {
        lemma_filter_holds(categories, keep_category, category);
    }
    assert forall|sound: SoundView| #[trigger]
        clean.selected_sounds.contains(sound) <==> sounds.contains(sound) && keep_sound(sound) by {
        lemma_filter_holds(sounds, keep_sound, sound);
    }
    if forall|i: int| 0 <= i < categories.len() ==> keep_category(#[trigger] categories[i]) {
        lemma_filter_all(categories, keep_category);
    }
    if forall|i: int| 0 <= i < sounds.len() ==> keep_sound(#[trigger] sounds[i]) {
        lemma_filter_all(sounds, keep_sound);
    }
}

/// Sanitizing keeps the order of what it keeps: what is kept of a selection in two
/// parts is what is kept of the one, followed by what is kept of the other.
pub proof fn law_sanitizing_keeps_the_order(
    settings: SettingsView,
    first: Seq<Seq<char>>,
    second: Seq<Seq<char>>,
    first_sounds: Seq<SoundView>,
    second_sounds: Seq<SoundView>,
    bundles: Seq<InfoView>,
    catalog: Seq<BundleContents>,
)
    requires
        settings.selected_categories == first + second,
        settings.selected_sounds == first_sounds + second_sounds,
    ensures
        ({
            let whole = sanitized(settings, bundles, catalog);
            let one = sanitized(
                SettingsView {
                    selected_categories: first,
                    selected_sounds: first_sounds,
                    ..settings
                },
                bundles,
                catalog,
            );
            let other = sanitized(
                SettingsView {
                    selected_categories: second,
                    selected_sounds: second_sounds,
                    ..settings
                },
                bundles,
                catalog,
            );
            &&& whole.selected_categories == one.selected_categories + other.selected_categories
            &&& whole.selected_sounds == one.selected_sounds + other.selected_sounds
        }),
{
    broadcast use Seq::filter_distributes_over_add;

    let keep_category = keeps_category(settings.nsfw_enabled, catalog);
    let keep_sound = keeps_sound(settings.nsfw_enabled, catalog);
    assert((first + second).filter(keep_category) == first.filter(keep_category) + second.filter(
        keep_category,
    ));
    assert((first_sounds + second_sounds).filter(keep_sound) == first_sounds.filter(keep_sound)
        + second_sounds.filter(keep_sound));
}

/// A rule whose bundle has sounds and may be shown stays as it is; any other plays
/// the replacement, and keeps its kind and its switches.
pub proof fn law_sanitizing_mends_just_the_broken_rules(
    settings: SettingsView,
    bundles: Seq<InfoView>,
    catalog: Seq<BundleContents>,
    i: int,
)
    requires
        0 <= i < settings.port_rules.len(),
    ensures
        ({
            let before = settings.port_rules[i];
            let after = sanitized(settings, bundles, catalog).port_rules[i];
            let fine = is_playable(catalog, before.bundle) && (settings.nsfw_enabled || !nsfw(
                before.bundle,
            ));
            &&& fine ==> after == before
            &&& !fine ==> after.bundle == fallback_bundle(bundles)
            &&& after.kind == before.kind
            &&& after.on_connect == before.on_connect
            &&& after.on_disconnect == before.on_disconnect
        }),
        sanitized(settings, bundles, catalog).port_rules.len() == settings.port_rules.len(),
{
}

/// The leading bundle is the first category that is kept, else the category of the
/// first sound that is kept; without a selection it stays where it has sounds, and
/// else is replaced. Detection stays on where there is such a bundle.
pub proof fn law_sanitizing_chooses_the_leading_bundle(
    settings: SettingsView,
    bundles: Seq<InfoView>,
    catalog: Seq<BundleContents>,
)
    ensures
        ({
            let clean = sanitized(settings, bundles, catalog);
            let categories = clean.selected_categories;
            let sounds = clean.selected_sounds;
            let unselected = categories.len() == 0 && sounds.len() == 0;
            &&& categories.len() > 0 ==> clean.bundle == categories[0]
            &&& categories.len() == 0 && sounds.len() > 0 ==> clean.bundle == sounds[0].category
            &&& unselected && is_playable(catalog, settings.bundle) ==> clean.bundle
                == settings.bundle
            &&& unselected && !is_playable(catalog, settings.bundle) ==> clean.bundle
                == fallback_bundle(bundles)
            &&& clean.enabled <==> settings.enabled && clean.bundle.len() > 0
        }),
{
}

/// Sanitizing leaves every other setting alone.
pub proof fn law_sanitizing_leaves_the_rest_alone(
    settings: SettingsView,
    bundles: Seq<InfoView>,
    catalog: Seq<BundleContents>,
)
    ensures
        ({
            let clean = sanitized(settings, bundles, catalog);
            &&& clean.sensitivity == settings.sensitivity
            &&& clean.microphone_sensitivity == settings.microphone_sensitivity
            &&& clean.accelerometer_sensitivity == settings.accelerometer_sensitivity
            &&& clean.cooldown_ms == settings.cooldown_ms
            &&& clean.volume == settings.volume
            &&& clean.use_system_volume == settings.use_system_volume
            &&& clean.detection_mode == settings.detection_mode
            &&& clean.playback_order == settings.playback_order
            &&& clean.sound_orders == settings.sound_orders
            &&& clean.album_order == settings.album_order
            &&& clean.legacy_starter_library_removed == settings.legacy_starter_library_removed
            &&& clean.nsfw_enabled == settings.nsfw_enabled
            &&& clean.theme == settings.theme
            &&& clean.hide_support_prompt == settings.hide_support_prompt
        }),
{
}

/// The settings command a start, with all its figures, just where detection is on.
pub proof fn law_what_the_detector_is_told(settings: SettingsView)
    ensures
        !settings.enabled ==> command_of(settings) == DetectorCmd::Stop,
        settings.enabled && settings.detection_mode == DetectionMode::Microphone ==> command_of(
            settings,
        ) == (DetectorCmd::Start {
            mode: DetectionMode::Microphone,
            threshold: settings.microphone_sensitivity,
            cooldown_ms: settings.cooldown_ms,
        }),
        settings.enabled && settings.detection_mode == DetectionMode::Accelerometer ==> command_of(
            settings,
        ) == (DetectorCmd::Start {
            mode: DetectionMode::Accelerometer,
            threshold: settings.accelerometer_sensitivity,
            cooldown_ms: settings.cooldown_ms,
        }),
{
}

/// Toggling turns detection over and does nothing else: with something to play it
/// is on afterwards just where it was off.
pub proof fn law_toggle_turns_over(
    settings: SettingsView,
    bundles: Seq<InfoView>,
    catalog: Seq<BundleContents>,
)
    ensures
        ({
            let after = sanitized(toggled(settings), bundles, catalog);
            let clean = sanitized(settings, bundles, catalog);
            &&& after.enabled <==> !settings.enabled && clean.bundle.len() > 0
            &&& after == (SettingsView { enabled: after.enabled, ..clean })
        }),
{
}

/// What is renamed is followed, and nothing else: a leading bundle of another name
/// stays, one of the old name takes the new one, and the rules do likewise.
pub proof fn law_renames_are_followed(
    settings: SettingsView,
    old_name: Seq<char>,
    new_name: Seq<char>,
    i: int,
)
    requires
        validated(settings) == settings,
        0 <= i < settings.port_rules.len(),
    ensures
        ({
            let after = with_renamed_bundle(settings, old_name, new_name);
            let rule = after.port_rules[i];
            let before = settings.port_rules[i];
            &&& settings.bundle == old_name ==> after.bundle == new_name
            &&& settings.bundle != old_name ==> after.bundle == settings.bundle
            &&& after.port_rules.len() == settings.port_rules.len()
            &&& before.bundle == old_name ==> rule.bundle == new_name
            &&& before.bundle != old_name ==> rule == before
            &&& rule.kind == before.kind && rule.on_connect == before.on_connect
                && rule.on_disconnect == before.on_disconnect
            &&& after == (SettingsView {
                bundle: after.bundle,
                port_rules: after.port_rules,
                ..settings
            })
        }),
{
    law_validated_settings_are_in_range(settings);
    let rules = renamed(settings.port_rules, old_name, new_name);
    lemma_complete_rules_stay(rules);
    assert(with_renamed_bundle(settings, old_name, new_name).selected_categories
        == validated(settings).selected_categories);
    assert(with_renamed_bundle(settings, old_name, new_name).selected_sounds
        == validated(settings).selected_sounds);
}

/// Taking the first starter library out keeps everything that is not of it, and
/// touches nothing once it has been done.
pub proof fn law_migration_keeps_the_rest(settings: SettingsView)
    ensures
        settings.legacy_starter_library_removed ==> migrated(settings) == settings,
        !settings.legacy_starter_library_removed ==> {
            let after = migrated(settings);
            &&& forall|category: Seq<char>| #[trigger]
                after.selected_categories.contains(category)
                    <==> settings.selected_categories.contains(category) && !is_legacy(category)
            &&& forall|sound: SoundView| #[trigger]
                after.selected_sounds.contains(sound) <==> settings.selected_sounds.contains(sound)
                    && !is_legacy(sound.category)
            &&& forall|order: OrderView| #[trigger]
                after.sound_orders.contains(order) <==> settings.sound_orders.contains(order)
                    && !is_legacy(order.category)
            &&& !is_legacy(settings.bundle) ==> after.bundle == settings.bundle
            &&& is_legacy(settings.bundle) ==> after.bundle.len() == 0
            &&& after.album_order == default_albums_spec()
            &&& after == (SettingsView {
                selected_categories: after.selected_categories,
                selected_sounds: after.selected_sounds,
                sound_orders: after.sound_orders,
                album_order: after.album_order,
                bundle: after.bundle,
                legacy_starter_library_removed: true,
                ..settings
            })
        },
{
    if !settings.legacy_starter_library_removed {
        let after = migrated(settings);
        assert forall|category: Seq<char>| #[trigger]
            after.selected_categories.contains(category)
                <==> settings.selected_categories.contains(category) && !is_legacy(category) by {
            lemma_filter_holds(
                settings.selected_categories,
                |category: Seq<char>| !is_legacy(category),
                category,
            );
        }
        assert forall|sound: SoundView| #[trigger]
            after.selected_sounds.contains(sound) <==> settings.selected_sounds.contains(sound)
                && !is_legacy(sound.category) by {
            lemma_filter_holds(
                settings.selected_sounds,
                |sound: SoundView| !is_legacy(sound.category),
                sound,
            );
        }
        assert forall|order: OrderView| #[trigger]
            after.sound_orders.contains(order) <==> settings.sound_orders.contains(order)
                && !is_legacy(order.category) by {
            lemma_filter_holds(
                settings.sound_orders,
                |order: OrderView| !is_legacy(order.category),
                order,
            );
        }
    }
}

/// The first starter library has these five albums.
pub proof fn law_legacy_names(name: Seq<char>)
    ensures
        is_legacy(name) <==> name == "OG Memes"@ || name == "Bollywood"@ || name == "Hollywood"@
            || name == "TV & Internet"@ || name == "After Dark"@,
{
    let albums = legacy_albums_spec();
    assert(albums[0] == "OG Memes"@ && albums[1] == "Bollywood"@ && albums[2] == "Hollywood"@);
    assert(albums[3] == "TV & Internet"@ && albums[4] == "After Dark"@);
}

/// The bounds in numbers: ports keep quiet for a second and a half at least, and
/// sound at nine tenths.
pub proof fn law_the_bounds_in_numbers()
    ensures
        LEAST_PORT_COOLDOWN_MS == 1500,
        PORT_INTENSITY == 0x3f66_6666,
{
}

/// What is saved is in range and can be played: saving looks at settings as
/// validating leaves them, and sanitizes those; what was valid is only sanitized.
pub proof fn law_what_is_saved(
    settings: SettingsView,
    bundles: Seq<InfoView>,
    catalog: Seq<BundleContents>,
)
    ensures
        ({
            let kept = saved(settings, bundles, catalog);
            &&& validated(kept) == kept
            &&& sanitized(kept, bundles, catalog) == kept
            &&& saved(validated(settings), bundles, catalog) == kept
            &&& validated(settings) == settings ==> kept == sanitized(settings, bundles, catalog)
            &&& 200 <= kept.cooldown_ms <= 10000
            &&& 200 <= settings.cooldown_ms <= 10000 ==> kept.cooldown_ms == settings.cooldown_ms
            &&& kept.microphone_sensitivity == validated(settings).microphone_sensitivity
            &&& kept.accelerometer_sensitivity == validated(settings).accelerometer_sensitivity
            &&& kept.sensitivity == validated(settings).sensitivity
            &&& kept.volume == validated(settings).volume
            &&& kept.enabled ==> settings.enabled && kept.bundle.len() > 0
        }),
{
    law_validate_is_idempotent(settings);
    lemma_sanitized_stays_valid(validated(settings), bundles, catalog);
    law_sanitize_is_idempotent(validated(settings), bundles, catalog);
}

/// Switching from the tray turns detection over, and leaves the rest as saving does.
pub proof fn law_the_tray_turns_over(
    settings: SettingsView,
    bundles: Seq<InfoView>,
    catalog: Seq<BundleContents>,
)
    ensures
        ({
            let after = saved(toggled(settings), bundles, catalog);
            let kept = saved(settings, bundles, catalog);
            &&& after.enabled <==> !settings.enabled && kept.bundle.len() > 0
            &&& after == (SettingsView { enabled: after.enabled, ..kept })
        }),
{
    assert(validated(toggled(settings)) == (SettingsView {
        enabled: !settings.enabled,
        ..validated(settings)
    }));
    assert(validated(toggled(settings)) == toggled(validated(settings)));
    law_toggle_turns_over(validated(settings), bundles, catalog);
}

/// Following a rename leaves valid settings behind, whatever they were: the figures
/// are those of validating, and the leading bundle is the new one just where it was
/// the old one. A deleted bundle gives way to the first that has sounds, hidden or
/// not, or to no name at all.
pub proof fn law_following_validates(
    settings: SettingsView,
    old_name: Seq<char>,
    new_name: Seq<char>,
    bundles: Seq<InfoView>,
    at: int,
)
    requires
        0 <= at <= bundles.len(),
        forall|i: int| 0 <= i < at ==> (#[trigger] bundles[i]).count == 0,
        at < bundles.len() ==> bundles[at].count > 0,
    ensures
        ({
            let after = with_renamed_bundle(settings, old_name, new_name);
            &&& validated(after) == after
            &&& after.bundle == if settings.bundle == old_name {
                new_name
            } else {
                settings.bundle
            }
            &&& after == (SettingsView {
                bundle: after.bundle,
                port_rules: after.port_rules,
                ..validated(settings)
            })
        }),
        at < bundles.len() ==> without_bundle(settings, old_name, bundles) == with_renamed_bundle(
            settings,
            old_name,
            bundles[at].name,
        ),
        at == bundles.len() ==> without_bundle(settings, old_name, bundles) == with_renamed_bundle(
            settings,
            old_name,
            Seq::empty(),
        ),
{
    law_the_first_bundle_with_sounds(bundles, true, at);
    law_validate_is_idempotent(
        SettingsView {
            bundle: if settings.bundle == old_name {
                new_name
            } else {
                settings.bundle
            },
            port_rules: renamed(settings.port_rules, old_name, new_name),
            ..settings
        },
    );
}

/// A name that leads nothing, was not picked and is in no rule is not mentioned.
pub proof fn law_nothing_else_is_mentioned(settings: SettingsView, name: Seq<char>)
    requires
        name != settings.bundle,
        forall|i: int|
            0 <= i < settings.selected_categories.len()
                ==> #[trigger] settings.selected_categories[i] != name,
        forall|i: int|
            0 <= i < settings.selected_sounds.len() ==> (
            #[trigger] settings.selected_sounds[i]).category != name,
        forall|i: int|
            0 <= i < settings.port_rules.len() ==> (#[trigger] settings.port_rules[i]).bundle
                != name,
    ensures
        !mentions(settings, name),
{
}

} // verus!
