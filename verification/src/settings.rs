//! The user's settings and the rules that keep them in shape.

use vstd::prelude::*;

use crate::detector::DetectionMode;
use crate::level::{law_clamp, Level};
use crate::lists::{
    lemma_filter_all, lemma_filter_step, lemma_filter_twice, lemma_filters_agree,
};
use crate::ports::{
    all_kinds, default_rule, law_repair_is_complete_and_stable, law_repair_keeps_the_first_rule,
    repair_rules, repaired, rule_views, PortKind, PortRule, RuleView,
};
use crate::text::{ascii_lowered, equals_ignoring_case, same_ignoring_case};

verus! {

/// The least sensitivity: 0.01.
pub const LEAST_SENSITIVITY: u32 = 0x3c23_d70a;

/// The sensitivity of a fresh installation: 0.15.
pub const USUAL_SENSITIVITY: u32 = 0x3e19_999a;

/// The volume of a fresh installation: 0.8.
pub const USUAL_VOLUME: u32 = 0x3f4c_cccd;

/// One: the greatest sensitivity and the full volume.
pub const ONE: u32 = 0x3f80_0000;

/// Zero: silence.
pub const ZERO: u32 = 0;

pub const LEAST_COOLDOWN_MS: u64 = 200;

pub const USUAL_COOLDOWN_MS: u64 = 2000;

pub const GREATEST_COOLDOWN_MS: u64 = 10000;

#[derive(Debug, Clone, Copy, PartialEq, Eq, Structural)]
pub enum ThemePreference {
    System,
    Light,
    Dark,
}

impl Default for ThemePreference {
    fn default() -> (theme: Self)
        ensures
            theme == ThemePreference::System,
    {
        Self::System
    }
}

/// Whether a selection is played as a playlist or as a shuffle bag.
#[derive(Debug, Clone, Copy, PartialEq, Eq, Structural)]
pub enum PlaybackOrder {
    Random,
    InOrder,
}

impl Default for PlaybackOrder {
    fn default() -> (order: Self)
        ensures
            order == PlaybackOrder::Random,
    {
        Self::Random
    }
}

/// One sound that the user picked out of a category.
#[derive(Debug)]
pub struct SelectedSound {
    pub category: String,
    pub filename: String,
}

/// A picked sound, as sequences of characters.
pub struct SoundView {
    pub category: Seq<char>,
    pub filename: Seq<char>,
}

impl View for SelectedSound {
    type V = SoundView;

    open spec fn view(&self) -> SoundView {
        SoundView { category: self.category@, filename: self.filename@ }
    }
}

impl Clone for SelectedSound {
    fn clone(&self) -> (copy: Self)
        ensures
            copy == *self,
    {
        SelectedSound { category: self.category.clone(), filename: self.filename.clone() }
    }
}

/// The order in which the user wants a category's files.
#[derive(Debug)]
pub struct SoundOrder {
    pub category: String,
    pub filenames: Vec<String>,
}

/// An order of files, as sequences of characters.
pub struct OrderView {
    pub category: Seq<char>,
    pub filenames: Seq<Seq<char>>,
}

impl View for SoundOrder {
    type V = OrderView;

    open spec fn view(&self) -> OrderView {
        OrderView { category: self.category@, filenames: names(self.filenames@) }
    }
}

impl Clone for SoundOrder {
    fn clone(&self) -> (copy: Self)
        ensures
            copy@ == self@,
    {
        let filenames = self.filenames.clone();
        assert(names(filenames@) == names(self.filenames@));
        SoundOrder { category: self.category.clone(), filenames }
    }
}

pub open spec fn names(texts: Seq<String>) -> Seq<Seq<char>> {
    texts.map_values(|text: String| text@)
}

pub open spec fn sound_views(sounds: Seq<SelectedSound>) -> Seq<SoundView> {
    sounds.map_values(|sound: SelectedSound| sound@)
}

pub open spec fn order_views(orders: Seq<SoundOrder>) -> Seq<OrderView> {
    orders.map_values(|order: SoundOrder| order@)
}

#[derive(Debug)]
pub struct Settings {
    pub sensitivity: Level,
    pub microphone_sensitivity: Level,
    pub accelerometer_sensitivity: Level,
    pub cooldown_ms: u64,
    pub volume: Level,
    pub use_system_volume: bool,
    pub enabled: bool,
    pub detection_mode: DetectionMode,
    /// Kept for backwards compatibility with existing settings and port rules.
    pub bundle: String,
    pub selected_categories: Vec<String>,
    pub selected_sounds: Vec<SelectedSound>,
    pub playback_order: PlaybackOrder,
    pub sound_orders: Vec<SoundOrder>,
    pub album_order: Vec<String>,
    /// Prevents a future launch from deleting a user-created pack that happens
    /// to use one of the names from the original starter library.
    pub legacy_starter_library_removed: bool,
    pub nsfw_enabled: bool,
    pub theme: ThemePreference,
    pub port_rules: Vec<PortRule>,
    pub hide_support_prompt: bool,
}

/// The settings, with texts and lists as sequences.
pub struct SettingsView {
    pub sensitivity: Level,
    pub microphone_sensitivity: Level,
    pub accelerometer_sensitivity: Level,
    pub cooldown_ms: u64,
    pub volume: Level,
    pub use_system_volume: bool,
    pub enabled: bool,
    pub detection_mode: DetectionMode,
    pub bundle: Seq<char>,
    pub selected_categories: Seq<Seq<char>>,
    pub selected_sounds: Seq<SoundView>,
    pub playback_order: PlaybackOrder,
    pub sound_orders: Seq<OrderView>,
    pub album_order: Seq<Seq<char>>,
    pub legacy_starter_library_removed: bool,
    pub nsfw_enabled: bool,
    pub theme: ThemePreference,
    pub port_rules: Seq<RuleView>,
    pub hide_support_prompt: bool,
}

impl View for Settings {
    type V = SettingsView;

    open spec fn view(&self) -> SettingsView {
        SettingsView {
            sensitivity: self.sensitivity,
            microphone_sensitivity: self.microphone_sensitivity,
            accelerometer_sensitivity: self.accelerometer_sensitivity,
            cooldown_ms: self.cooldown_ms,
            volume: self.volume,
            use_system_volume: self.use_system_volume,
            enabled: self.enabled,
            detection_mode: self.detection_mode,
            bundle: self.bundle@,
            selected_categories: names(self.selected_categories@),
            selected_sounds: sound_views(self.selected_sounds@),
            playback_order: self.playback_order,
            sound_orders: order_views(self.sound_orders@),
            album_order: names(self.album_order@),
            legacy_starter_library_removed: self.legacy_starter_library_removed,
            nsfw_enabled: self.nsfw_enabled,
            theme: self.theme,
            port_rules: rule_views(self.port_rules@),
            hide_support_prompt: self.hide_support_prompt,
        }
    }
}

/// The albums that every installation has, in their first order.
pub open spec fn default_albums_spec() -> Seq<Seq<char>> {
    seq!["Trendy"@, "OG"@, "OG-Indian"@, "TV"@, "Moan"@, "Chodu CID"@]
}

/// The settings of a fresh installation.
pub open spec fn default_settings() -> SettingsView {
    SettingsView {
        sensitivity: Level { bits: USUAL_SENSITIVITY },
        microphone_sensitivity: Level { bits: USUAL_SENSITIVITY },
        accelerometer_sensitivity: Level { bits: USUAL_SENSITIVITY },
        cooldown_ms: USUAL_COOLDOWN_MS,
        volume: Level { bits: USUAL_VOLUME },
        use_system_volume: true,
        enabled: false,
        detection_mode: DetectionMode::Microphone,
        bundle: Seq::empty(),
        selected_categories: Seq::empty(),
        selected_sounds: Seq::empty(),
        playback_order: PlaybackOrder::Random,
        sound_orders: Seq::empty(),
        album_order: default_albums_spec(),
        legacy_starter_library_removed: false,
        nsfw_enabled: false,
        theme: ThemePreference::System,
        port_rules: Seq::new(all_kinds().len(), |i: int| default_rule(all_kinds()[i])),
        hide_support_prompt: false,
    }
}

/// The categories that are hidden unless the user asks for them. Legacy names
/// count, so that a stale setting cannot expose them.
pub open spec fn nsfw(category: Seq<char>) -> bool {
    same_ignoring_case(category, "Moan"@) || same_ignoring_case(category, "Chodu CID"@)
        || same_ignoring_case(category, "After Dark"@) || same_ignoring_case(category, "NSFW"@)
}

pub open spec fn is_allowed(category: Seq<char>, nsfw_enabled: bool) -> bool {
    nsfw_enabled || !nsfw(category)
}

pub open spec fn clamped_sensitivity(level: Level) -> Level {
    level.clamp_spec(Level { bits: LEAST_SENSITIVITY }, Level { bits: ONE })
}

/// The sensitivity of one input: its own, or where it has none (zero or less)
/// the common one, brought into range.
pub open spec fn input_sensitivity(own: Level, common: Level) -> Level {
    clamped_sensitivity(
        if own.le_spec(Level { bits: ZERO }) {
            clamped_sensitivity(common)
        } else {
            own
        },
    )
}

pub open spec fn clamped_cooldown(cooldown_ms: u64) -> u64 {
    if cooldown_ms < LEAST_COOLDOWN_MS {
        LEAST_COOLDOWN_MS
    } else if cooldown_ms > GREATEST_COOLDOWN_MS {
        GREATEST_COOLDOWN_MS
    } else {
        cooldown_ms
    }
}

/// The settings once every value has been brought into range.
pub open spec fn validated(settings: SettingsView) -> SettingsView {
    let microphone = input_sensitivity(settings.microphone_sensitivity, settings.sensitivity);
    SettingsView {
        sensitivity: microphone,
        microphone_sensitivity: microphone,
        accelerometer_sensitivity: input_sensitivity(
            settings.accelerometer_sensitivity,
            settings.sensitivity,
        ),
        cooldown_ms: clamped_cooldown(settings.cooldown_ms),
        volume: settings.volume.clamp_spec(Level { bits: ZERO }, Level { bits: ONE }),
        port_rules: repaired(settings.port_rules),
        selected_categories: settings.selected_categories.filter(
            |category: Seq<char>| is_allowed(category, settings.nsfw_enabled),
        ),
        selected_sounds: settings.selected_sounds.filter(
            |sound: SoundView| is_allowed(sound.category, settings.nsfw_enabled),
        ),
        ..settings
    }
}

pub open spec fn threshold(settings: SettingsView) -> Level {
    match settings.detection_mode {
        DetectionMode::Microphone => settings.microphone_sensitivity,
        DetectionMode::Accelerometer => settings.accelerometer_sensitivity,
    }
}

pub open spec fn volume_out(settings: SettingsView) -> Level {
    if settings.use_system_volume {
        Level { bits: ONE }
    } else {
        settings.volume
    }
}

/// Whether a category is hidden unless the user asks for it.
pub fn is_nsfw_category(category: &str) -> (hidden: bool)
    ensures
        hidden == nsfw(category@),
{
    equals_ignoring_case(category, "Moan") || equals_ignoring_case(category, "Chodu CID")
        || equals_ignoring_case(category, "After Dark") || equals_ignoring_case(category, "NSFW")
}

/// The albums that every installation has.
pub fn default_albums() -> (albums: Vec<String>)
    ensures
        names(albums@) == default_albums_spec(),
{
    let mut albums: Vec<String> = Vec::new();
    albums.push("Trendy".to_string());
    albums.push("OG".to_string());
    albums.push("OG-Indian".to_string());
    albums.push("TV".to_string());
    albums.push("Moan".to_string());
    albums.push("Chodu CID".to_string());
    assert(names(albums@) == default_albums_spec());
    albums
}

impl Default for Settings {
    fn default() -> (settings: Self)
        ensures
            settings@ == default_settings(),
    {
        let kinds = PortKind::all();
        let mut port_rules: Vec<PortRule> = Vec::new();
        let mut i: usize = 0;
        while i < 5
            invariant
                i <= 5,
                kinds@ == all_kinds(),
                port_rules@.len() == i,
                forall|j: int|
                    0 <= j < i ==> (#[trigger] port_rules@[j])@ == default_rule(all_kinds()[j]),
            decreases 5 - i,
        {
            port_rules.push(PortRule::default_for(kinds[i]));
            i += 1;
        }
        let settings = Settings {
            sensitivity: Level::from_bits(USUAL_SENSITIVITY),
            microphone_sensitivity: Level::from_bits(USUAL_SENSITIVITY),
            accelerometer_sensitivity: Level::from_bits(USUAL_SENSITIVITY),
            cooldown_ms: USUAL_COOLDOWN_MS,
            volume: Level::from_bits(USUAL_VOLUME),
            use_system_volume: true,
            enabled: false,
            detection_mode: DetectionMode::Microphone,
            bundle: String::new(),
            selected_categories: Vec::new(),
            selected_sounds: Vec::new(),
            playback_order: PlaybackOrder::Random,
            sound_orders: Vec::new(),
            album_order: default_albums(),
            legacy_starter_library_removed: false,
            nsfw_enabled: false,
            theme: ThemePreference::System,
            port_rules,
            hide_support_prompt: false,
        };
        proof {
            let view = settings@;
            assert(view.selected_categories == Seq::<Seq<char>>::empty());
            assert(view.selected_sounds == Seq::<SoundView>::empty());
            assert(view.sound_orders == Seq::<OrderView>::empty());
            assert(view.port_rules == default_settings().port_rules);
        }
        settings
    }
}

impl Clone for Settings {
    fn clone(&self) -> (copy: Self)
        ensures
            copy@ == self@,
    {
        let mut sound_orders: Vec<SoundOrder> = Vec::new();
        let mut i: usize = 0;
        while i < self.sound_orders.len()
            invariant
                i <= self.sound_orders@.len(),
                sound_orders@.len() == i,
                forall|j: int|
                    0 <= j < i ==> (#[trigger] sound_orders@[j])@ == self.sound_orders@[j]@,
            decreases self.sound_orders.len() - i,
        {
            sound_orders.push(self.sound_orders[i].clone());
            i += 1;
        }
        let copy = Settings {
            sensitivity: self.sensitivity,
            microphone_sensitivity: self.microphone_sensitivity,
            accelerometer_sensitivity: self.accelerometer_sensitivity,
            cooldown_ms: self.cooldown_ms,
            volume: self.volume,
            use_system_volume: self.use_system_volume,
            enabled: self.enabled,
            detection_mode: self.detection_mode,
            bundle: self.bundle.clone(),
            selected_categories: self.selected_categories.clone(),
            selected_sounds: self.selected_sounds.clone(),
            playback_order: self.playback_order,
            sound_orders,
            album_order: self.album_order.clone(),
            legacy_starter_library_removed: self.legacy_starter_library_removed,
            nsfw_enabled: self.nsfw_enabled,
            theme: self.theme,
            port_rules: self.port_rules.clone(),
            hide_support_prompt: self.hide_support_prompt,
        };
        proof {
            assert(copy@.selected_categories == self@.selected_categories);
            assert(copy@.selected_sounds == self@.selected_sounds);
            assert(copy@.sound_orders == self@.sound_orders);
            assert(copy@.album_order == self@.album_order);
            assert(copy@.port_rules == self@.port_rules);
        }
        copy
    }
}

/// The categories that may be shown.
fn allowed_categories(categories: &Vec<String>, nsfw_enabled: bool) -> (kept: Vec<String>)
    ensures
        names(kept@) == names(categories@).filter(
            |category: Seq<char>| is_allowed(category, nsfw_enabled),
        ),
{
    let ghost all = names(categories@);
    let ghost keep = |category: Seq<char>| is_allowed(category, nsfw_enabled);
    let mut kept: Vec<String> = Vec::new();
    let mut i: usize = 0;
    assert(all.take(0).filter(keep) == Seq::<Seq<char>>::empty()) by {
        reveal(Seq::filter);
    }
    assert(names(kept@) == Seq::<Seq<char>>::empty());
    while i < categories.len()
        invariant
            i <= categories@.len(),
            all == names(categories@),
            keep == (|category: Seq<char>| is_allowed(category, nsfw_enabled)),
            names(kept@) == all.take(i as int).filter(keep),
        decreases categories.len() - i,
    {
        proof {
            lemma_filter_step(all, keep, i as int);
        }
        if nsfw_enabled || !is_nsfw_category(categories[i].as_str()) {
            let category = categories[i].clone();
            assert(names(kept@.push(category)) == names(kept@).push(category@));
            kept.push(category);
        }
        i += 1;
    }
    assert(all.take(all.len() as int) == all);
    kept
}

/// The picked sounds that may be shown.
fn allowed_sounds(sounds: &Vec<SelectedSound>, nsfw_enabled: bool) -> (kept: Vec<SelectedSound>)
    ensures
        sound_views(kept@) == sound_views(sounds@).filter(
            |sound: SoundView| is_allowed(sound.category, nsfw_enabled),
        ),
{
    let ghost all = sound_views(sounds@);
    let ghost keep = |sound: SoundView| is_allowed(sound.category, nsfw_enabled);
    let mut kept: Vec<SelectedSound> = Vec::new();
    let mut i: usize = 0;
    assert(all.take(0).filter(keep) == Seq::<SoundView>::empty()) by {
        reveal(Seq::filter);
    }
    assert(sound_views(kept@) == Seq::<SoundView>::empty());
    while i < sounds.len()
        invariant
            i <= sounds@.len(),
            all == sound_views(sounds@),
            keep == (|sound: SoundView| is_allowed(sound.category, nsfw_enabled)),
            sound_views(kept@) == all.take(i as int).filter(keep),
        decreases sounds.len() - i,
    {
        proof {
            lemma_filter_step(all, keep, i as int);
        }
        if nsfw_enabled || !is_nsfw_category(sounds[i].category.as_str()) {
            let sound = sounds[i].clone();
            assert(sound_views(kept@.push(sound)) == sound_views(kept@).push(sound@));
            kept.push(sound);
        }
        i += 1;
    }
    assert(all.take(all.len() as int) == all);
    kept
}

fn clamp_sensitivity(level: Level) -> (clamped: Level)
    ensures
        clamped == clamped_sensitivity(level),
{
    level.clamp(Level::from_bits(LEAST_SENSITIVITY), Level::from_bits(ONE))
}

fn seeded_sensitivity(own: Level, common: Level) -> (sensitivity: Level)
    ensures
        sensitivity == clamped_sensitivity(
            if own.le_spec(Level { bits: ZERO }) {
                common
            } else {
                own
            },
        ),
{
    if own.le(Level::from_bits(ZERO)) {
        clamp_sensitivity(common)
    } else {
        clamp_sensitivity(own)
    }
}

impl Settings {
    /// Brings every value into range.
    pub fn validate(&mut self)
        ensures
            final(self)@ == validated(old(self)@),
    {
        let sensitivity = clamp_sensitivity(self.sensitivity);
        self.microphone_sensitivity = seeded_sensitivity(self.microphone_sensitivity, sensitivity);
        self.accelerometer_sensitivity =
        seeded_sensitivity(self.accelerometer_sensitivity, sensitivity);
        self.sensitivity = self.microphone_sensitivity;
        self.cooldown_ms =
        if self.cooldown_ms < LEAST_COOLDOWN_MS {
            LEAST_COOLDOWN_MS
        } else if self.cooldown_ms > GREATEST_COOLDOWN_MS {
            GREATEST_COOLDOWN_MS
        } else {
            self.cooldown_ms
        };
        self.volume = self.volume.clamp(Level::from_bits(ZERO), Level::from_bits(ONE));
        repair_rules(&mut self.port_rules);
        self.selected_categories = allowed_categories(&self.selected_categories, self.nsfw_enabled);
        self.selected_sounds = allowed_sounds(&self.selected_sounds, self.nsfw_enabled);
    }

    /// The sensitivity of the input in use.
    pub fn detection_threshold(&self) -> (level: Level)
        ensures
            level == threshold(self@),
    {
        match self.detection_mode {
            DetectionMode::Microphone => self.microphone_sensitivity,
            DetectionMode::Accelerometer => self.accelerometer_sensitivity,
        }
    }

    /// The volume to play at.
    pub fn output_volume(&self) -> (level: Level)
        ensures
            level == volume_out(self@),
    {
        if self.use_system_volume {
            Level::from_bits(ONE)
        } else {
            self.volume
        }
    }
}

// ── Laws ─────────────────────────────────────────────────────────────

/// Settings that have been validated are valid: validating again changes
/// nothing.
pub proof fn law_validate_is_idempotent(settings: SettingsView)
    ensures
        validated(validated(settings)) == validated(settings),
{
    let once = validated(settings);
    let low = Level { bits: LEAST_SENSITIVITY };
    let high = Level { bits: ONE };
    let zero = Level { bits: ZERO };
    let own = settings.microphone_sensitivity;
    let seed = clamped_sensitivity(settings.sensitivity);
    law_clamp(settings.sensitivity, low, high);
    law_clamp(seed, low, high);
    law_clamp(own, low, high);
    law_clamp(settings.accelerometer_sensitivity, low, high);
    law_clamp(settings.volume, zero, high);
    law_clamp(once.microphone_sensitivity, low, high);
    law_clamp(once.accelerometer_sensitivity, low, high);
    law_repair_is_complete_and_stable(settings.port_rules);
    lemma_filter_twice(
        settings.selected_categories,
        |category: Seq<char>| is_allowed(category, settings.nsfw_enabled),
    );
    lemma_filter_twice(
        settings.selected_sounds,
        |sound: SoundView| is_allowed(sound.category, settings.nsfw_enabled),
    );
    assert(validated(once).selected_categories == once.selected_categories);
    assert(validated(once).selected_sounds == once.selected_sounds);
    assert(input_sensitivity(once.microphone_sensitivity, once.sensitivity)
        == once.microphone_sensitivity);
    assert(input_sensitivity(once.accelerometer_sensitivity, once.sensitivity)
        == once.accelerometer_sensitivity);
}

/// What holds of validated settings: every number is in range (a NaN excepted,
/// which no range can be told of), the common sensitivity is the microphone's,
/// each kind of port has its one rule, and without the user's consent nothing
/// hidden is selected.
pub proof fn law_validated_settings_are_in_range(settings: SettingsView)
    ensures
        ({
            let valid = validated(settings);
            let low = Level { bits: LEAST_SENSITIVITY };
            let high = Level { bits: ONE };
            &&& valid.sensitivity == valid.microphone_sensitivity
            &&& !valid.microphone_sensitivity.is_nan_spec() ==> low.le_spec(
                valid.microphone_sensitivity,
            ) && valid.microphone_sensitivity.le_spec(high)
            &&& !valid.accelerometer_sensitivity.is_nan_spec() ==> low.le_spec(
                valid.accelerometer_sensitivity,
            ) && valid.accelerometer_sensitivity.le_spec(high)
            &&& !threshold(valid).is_nan_spec() ==> low.le_spec(threshold(valid)) && threshold(
                valid,
            ).le_spec(high)
            &&& !valid.volume.is_nan_spec() ==> Level { bits: ZERO }.le_spec(valid.volume)
                && valid.volume.le_spec(high)
            &&& LEAST_COOLDOWN_MS <= valid.cooldown_ms <= GREATEST_COOLDOWN_MS
            &&& valid.port_rules.len() == all_kinds().len()
            &&& forall|i: int|
                0 <= i < valid.port_rules.len() ==> (#[trigger] valid.port_rules[i]).kind
                    == all_kinds()[i]
            &&& !valid.nsfw_enabled ==> forall|i: int|
                0 <= i < valid.selected_categories.len() ==> !nsfw(
                    #[trigger] valid.selected_categories[i],
                )
            &&& !valid.nsfw_enabled ==> forall|i: int|
                0 <= i < valid.selected_sounds.len() ==> !nsfw(
                    (#[trigger] valid.selected_sounds[i]).category,
                )
        }),
{
    let low = Level { bits: LEAST_SENSITIVITY };
    let high = Level { bits: ONE };
    let seed = clamped_sensitivity(settings.sensitivity);
    law_clamp(settings.sensitivity, low, high);
    law_clamp(seed, low, high);
    law_clamp(settings.microphone_sensitivity, low, high);
    law_clamp(settings.accelerometer_sensitivity, low, high);
    law_clamp(settings.volume, Level { bits: ZERO }, high);
    law_repair_is_complete_and_stable(settings.port_rules);
    broadcast use vstd::seq_lib::group_filter_ensures;
}

/// Spelling a category with other capitals does not bring it out of hiding.
pub proof fn law_hiding_ignores_case(a: Seq<char>, b: Seq<char>)
    requires
        same_ignoring_case(a, b),
    ensures
        nsfw(a) == nsfw(b),
{
}

/// Validating keeps what is in range, and brings what is not to the nearer end of
/// the range.
pub proof fn law_validating_keeps_what_is_in_range(settings: SettingsView)
    ensures
        ({
            let valid = validated(settings);
            let least = Level { bits: LEAST_SENSITIVITY };
            let one = Level { bits: ONE };
            let zero = Level { bits: ZERO };
            let microphone = settings.microphone_sensitivity;
            let accelerometer = settings.accelerometer_sensitivity;
            &&& 200 <= settings.cooldown_ms <= 10000 ==> valid.cooldown_ms == settings.cooldown_ms
            &&& settings.cooldown_ms < 200 ==> valid.cooldown_ms == 200
            &&& settings.cooldown_ms > 10000 ==> valid.cooldown_ms == 10000
            &&& zero.le_spec(settings.volume) && settings.volume.le_spec(one) ==> valid.volume
                == settings.volume
            &&& settings.volume.lt_spec(zero) ==> valid.volume == zero
            &&& one.lt_spec(settings.volume) ==> valid.volume == one
            &&& least.le_spec(microphone) && microphone.le_spec(one)
                ==> valid.microphone_sensitivity == microphone
            &&& zero.lt_spec(microphone) && microphone.lt_spec(least)
                ==> valid.microphone_sensitivity == least
            &&& one.lt_spec(microphone) ==> valid.microphone_sensitivity == one
            &&& least.le_spec(accelerometer) && accelerometer.le_spec(one)
                ==> valid.accelerometer_sensitivity == accelerometer
            &&& zero.lt_spec(accelerometer) && accelerometer.lt_spec(least)
                ==> valid.accelerometer_sensitivity == least
            &&& one.lt_spec(accelerometer) ==> valid.accelerometer_sensitivity == one
            &&& valid.sensitivity == valid.microphone_sensitivity
        }),
{
}

/// An input without a sensitivity of its own takes the common one: as it is where
/// that is in range, else the nearer end of the range.
pub proof fn law_inputs_take_the_common_sensitivity(settings: SettingsView)
    ensures
        ({
            let valid = validated(settings);
            let least = Level { bits: LEAST_SENSITIVITY };
            let one = Level { bits: ONE };
            let zero = Level { bits: ZERO };
            let common = settings.sensitivity;
            let seed = if common.lt_spec(least) {
                least
            } else if one.lt_spec(common) {
                one
            } else {
                common
            };
            &&& settings.microphone_sensitivity.le_spec(zero) ==> valid.microphone_sensitivity
                == seed
            &&& settings.accelerometer_sensitivity.le_spec(zero) ==> valid.accelerometer_sensitivity
                == seed
        }),
{
}

/// Validating leaves everything else alone: every switch and choice stays, and of
/// the selection just what is hidden goes, and that only without consent.
pub proof fn law_validating_leaves_the_rest_alone(settings: SettingsView)
    ensures
        ({
            let valid = validated(settings);
            &&& valid.use_system_volume == settings.use_system_volume
            &&& valid.enabled == settings.enabled
            &&& valid.detection_mode == settings.detection_mode
            &&& valid.bundle == settings.bundle
            &&& valid.playback_order == settings.playback_order
            &&& valid.sound_orders == settings.sound_orders
            &&& valid.album_order == settings.album_order
            &&& valid.legacy_starter_library_removed == settings.legacy_starter_library_removed
            &&& valid.nsfw_enabled == settings.nsfw_enabled
            &&& valid.theme == settings.theme
            &&& valid.hide_support_prompt == settings.hide_support_prompt
            &&& settings.nsfw_enabled ==> valid.selected_categories == settings.selected_categories
                && valid.selected_sounds == settings.selected_sounds
            &&& !settings.nsfw_enabled ==> valid.selected_categories
                == settings.selected_categories.filter(|category: Seq<char>| !nsfw(category))
                && valid.selected_sounds == settings.selected_sounds.filter(
                |sound: SoundView| !nsfw(sound.category),
            )
        }),
{
    let valid = validated(settings);
    let allow_category = |category: Seq<char>| is_allowed(category, settings.nsfw_enabled);
    let allow_sound = |sound: SoundView| is_allowed(sound.category, settings.nsfw_enabled);
    if settings.nsfw_enabled {
        lemma_filter_all(settings.selected_categories, allow_category);
        lemma_filter_all(settings.selected_sounds, allow_sound);
    } else {
        lemma_filters_agree(
            settings.selected_categories,
            allow_category,
            |category: Seq<char>| !nsfw(category),
        );
        lemma_filters_agree(
            settings.selected_sounds,
            allow_sound,
            |sound: SoundView| !nsfw(sound.category),
        );
    }
}

/// Validating repairs the rules: each kind keeps the first rule that the user had
/// for it.
pub proof fn law_validating_keeps_the_rules(settings: SettingsView, at: int)
    requires
        0 <= at < settings.port_rules.len(),
        forall|i: int|
            0 <= i < at ==> (#[trigger] settings.port_rules[i]).kind
                != settings.port_rules[at].kind,
    ensures
        validated(settings).port_rules.contains(settings.port_rules[at]),
{
    let rule = settings.port_rules[at];
    law_repair_keeps_the_first_rule(settings.port_rules, at);
    assert(all_kinds()[0] == PortKind::Charging);
    assert(all_kinds()[1] == PortKind::UsbStorage);
    assert(all_kinds()[2] == PortKind::ExternalDisplay);
    assert(all_kinds()[3] == PortKind::Ethernet);
    assert(all_kinds()[4] == PortKind::ThunderboltDock);
    let place = match rule.kind {
        PortKind::Charging => 0int,
        PortKind::UsbStorage => 1int,
        PortKind::ExternalDisplay => 2int,
        PortKind::Ethernet => 3int,
        PortKind::ThunderboltDock => 4int,
    };
    assert(repaired(settings.port_rules)[place] == rule);
}

/// The hidden categories are those that spell one of four names in whatever case,
/// and no others.
pub proof fn law_hidden_names(category: Seq<char>)
    ensures
        nsfw(category) <==> {
            let lower = ascii_lowered(category);
            lower == "moan"@ || lower == "chodu cid"@ || lower == "after dark"@ || lower == "nsfw"@
        },
{
    reveal_strlit("Moan");
    reveal_strlit("moan");
    reveal_strlit("Chodu CID");
    reveal_strlit("chodu cid");
    reveal_strlit("After Dark");
    reveal_strlit("after dark");
    reveal_strlit("NSFW");
    reveal_strlit("nsfw");
    assert(ascii_lowered("Moan"@) =~= "moan"@);
    assert(ascii_lowered("Chodu CID"@) =~= "chodu cid"@);
    assert(ascii_lowered("After Dark"@) =~= "after dark"@);
    assert(ascii_lowered("NSFW"@) =~= "nsfw"@);
}

/// The threshold is that of the input in use; the volume is full unless the user
/// sets it in the program.
pub proof fn law_threshold_and_volume(settings: SettingsView)
    ensures
        settings.detection_mode == DetectionMode::Microphone ==> threshold(settings)
            == settings.microphone_sensitivity,
        settings.detection_mode == DetectionMode::Accelerometer ==> threshold(settings)
            == settings.accelerometer_sensitivity,
        settings.use_system_volume ==> volume_out(settings) == (Level { bits: ONE }),
        !settings.use_system_volume ==> volume_out(settings) == settings.volume,
{
}

/// Nothing of the settings is lost from sight: their view shows every value, and
/// every list in its order.
pub proof fn law_the_view_shows_every_value(settings: Settings)
    ensures
        settings@.sensitivity == settings.sensitivity,
        settings@.microphone_sensitivity == settings.microphone_sensitivity,
        settings@.accelerometer_sensitivity == settings.accelerometer_sensitivity,
        settings@.cooldown_ms == settings.cooldown_ms,
        settings@.volume == settings.volume,
        settings@.use_system_volume == settings.use_system_volume,
        settings@.enabled == settings.enabled,
        settings@.detection_mode == settings.detection_mode,
        settings@.bundle == settings.bundle@,
        settings@.selected_categories.len() == settings.selected_categories@.len(),
        forall|i: int|
            0 <= i < settings.selected_categories@.len() ==> settings@.selected_categories[i] == (
            #[trigger] settings.selected_categories@[i])@,
        settings@.selected_sounds.len() == settings.selected_sounds@.len(),
        forall|i: int|
            0 <= i < settings.selected_sounds@.len() ==> settings@.selected_sounds[i].category == (
            #[trigger] settings.selected_sounds@[i]).category@
                && settings@.selected_sounds[i].filename == settings.selected_sounds@[i].filename@,
        settings@.playback_order == settings.playback_order,
        settings@.sound_orders.len() == settings.sound_orders@.len(),
        forall|i: int, j: int|
            0 <= i < settings.sound_orders@.len() && 0 <= j
                < settings.sound_orders@[i].filenames@.len()
                ==> settings@.sound_orders[i].category == settings.sound_orders@[i].category@
                && settings@.sound_orders[i].filenames.len()
                == settings.sound_orders@[i].filenames@.len()
                && settings@.sound_orders[i].filenames[j] == (
            #[trigger] settings.sound_orders@[i].filenames@[j])@,
        settings@.album_order.len() == settings.album_order@.len(),
        forall|i: int|
            0 <= i < settings.album_order@.len() ==> settings@.album_order[i] == (
            #[trigger] settings.album_order@[i])@,
        settings@.legacy_starter_library_removed == settings.legacy_starter_library_removed,
        settings@.nsfw_enabled == settings.nsfw_enabled,
        settings@.theme == settings.theme,
        settings@.port_rules.len() == settings.port_rules@.len(),
        forall|i: int|
            0 <= i < settings.port_rules@.len() ==> settings@.port_rules[i].kind == (
            #[trigger] settings.port_rules@[i]).kind && settings@.port_rules[i].bundle
                == settings.port_rules@[i].bundle@ && settings@.port_rules[i].on_connect
                == settings.port_rules@[i].on_connect && settings@.port_rules[i].on_disconnect
                == settings.port_rules@[i].on_disconnect,
        settings@.hide_support_prompt == settings.hide_support_prompt,
{
}

/// A fresh installation is off, random and follows the system; nothing is selected,
/// nothing is hidden but what needs consent, and no rule plays anything. Its values
/// are in range, so that validating leaves them as they are.
pub proof fn law_a_fresh_installation(i: int)
    requires
        0 <= i < default_settings().port_rules.len(),
    ensures
        ({
            let fresh = default_settings();
            &&& !fresh.enabled && !fresh.nsfw_enabled && !fresh.hide_support_prompt
            &&& !fresh.legacy_starter_library_removed && fresh.use_system_volume
            &&& fresh.detection_mode == DetectionMode::Microphone
            &&& fresh.playback_order == PlaybackOrder::Random
            &&& fresh.theme == ThemePreference::System
            &&& fresh.bundle.len() == 0
            &&& fresh.selected_categories.len() == 0 && fresh.selected_sounds.len() == 0
            &&& fresh.sound_orders.len() == 0
            &&& fresh.cooldown_ms == 2000
            &&& fresh.sensitivity == Level { bits: 0x3e19_999a }
            &&& fresh.microphone_sensitivity == fresh.sensitivity
            &&& fresh.accelerometer_sensitivity == fresh.sensitivity
            &&& fresh.volume == Level { bits: 0x3f4c_cccd }
            &&& fresh.port_rules.len() == 5
            &&& fresh.port_rules[i].bundle == "default"@
            &&& !fresh.port_rules[i].on_connect && !fresh.port_rules[i].on_disconnect
            &&& fresh.album_order.len() == 6
            &&& fresh.album_order[0] == "Trendy"@ && fresh.album_order[1] == "OG"@
            &&& fresh.album_order[2] == "OG-Indian"@ && fresh.album_order[3] == "TV"@
            &&& fresh.album_order[4] == "Moan"@ && fresh.album_order[5] == "Chodu CID"@
            &&& validated(fresh).cooldown_ms == fresh.cooldown_ms
            &&& validated(fresh).volume == fresh.volume
            &&& validated(fresh).microphone_sensitivity == fresh.microphone_sensitivity
            &&& validated(fresh).accelerometer_sensitivity == fresh.accelerometer_sensitivity
        }),
{
}

/// The ends of the ranges in numbers: a cooldown has between a fifth of a second and
/// ten seconds, a sensitivity between a hundredth and one, a volume between nothing
/// and one.
pub proof fn law_the_ranges_in_numbers(settings: SettingsView)
    ensures
        ({
            let valid = validated(settings);
            &&& 200 <= valid.cooldown_ms <= 10000
            &&& 200 <= settings.cooldown_ms <= 10000 ==> valid.cooldown_ms == settings.cooldown_ms
            &&& settings.cooldown_ms < 200 ==> valid.cooldown_ms == 200
            &&& settings.cooldown_ms > 10000 ==> valid.cooldown_ms == 10000
        }),
        LEAST_SENSITIVITY == 0x3c23_d70a,
        ONE == 0x3f80_0000,
        ZERO == 0,
{
}

} // verus!
