//! Ports, the rules that tie sounds to them, and what changed between two looks
//! at the machine.

use vstd::prelude::*;

use crate::text::same_text;

verus! {

/// What can be plugged in or out.
#[derive(Debug, Clone, Copy, PartialEq, Eq, Hash, Structural)]
pub enum PortKind {
    Charging,
    UsbStorage,
    ExternalDisplay,
    Ethernet,
    ThunderboltDock,
}

/// Every kind, in the order in which kinds are listed to the user.
pub open spec fn all_kinds() -> Seq<PortKind> {
    seq![
        PortKind::Charging,
        PortKind::UsbStorage,
        PortKind::ExternalDisplay,
        PortKind::Ethernet,
        PortKind::ThunderboltDock,
    ]
}

impl PortKind {
    pub open spec fn label_spec(self) -> Seq<char> {
        match self {
            PortKind::Charging => "Charging / power"@,
            PortKind::UsbStorage => "USB storage / pendrive"@,
            PortKind::ExternalDisplay => "HDMI / external display"@,
            PortKind::Ethernet => "LAN / ethernet"@,
            PortKind::ThunderboltDock => "Thunderbolt / dock"@,
        }
    }

    pub fn all() -> (kinds: [Self; 5])
        ensures
            kinds@ == all_kinds(),
    {
        let kinds = [
            Self::Charging,
            Self::UsbStorage,
            Self::ExternalDisplay,
            Self::Ethernet,
            Self::ThunderboltDock,
        ];
        assert(kinds@ == all_kinds());
        kinds
    }

    /// The name shown to the user.
    pub fn label(self) -> (label: &'static str)
        ensures
            label@ == self.label_spec(),
    {
        match self {
            Self::Charging => "Charging / power",
            Self::UsbStorage => "USB storage / pendrive",
            Self::ExternalDisplay => "HDMI / external display",
            Self::Ethernet => "LAN / ethernet",
            Self::ThunderboltDock => "Thunderbolt / dock",
        }
    }
}

/// Which bundle to play when a port of the given kind connects or disconnects.
#[derive(Debug)]
pub struct PortRule {
    pub kind: PortKind,
    pub bundle: String,
    pub on_connect: bool,
    pub on_disconnect: bool,
}

/// A rule with its bundle as a sequence of characters.
pub struct RuleView {
    pub kind: PortKind,
    pub bundle: Seq<char>,
    pub on_connect: bool,
    pub on_disconnect: bool,
}

impl View for PortRule {
    type V = RuleView;

    open spec fn view(&self) -> RuleView {
        RuleView {
            kind: self.kind,
            bundle: self.bundle@,
            on_connect: self.on_connect,
            on_disconnect: self.on_disconnect,
        }
    }
}

impl Clone for PortRule {
    fn clone(&self) -> (copy: Self)
        ensures
            copy == *self,
    {
        PortRule {
            kind: self.kind,
            bundle: self.bundle.clone(),
            on_connect: self.on_connect,
            on_disconnect: self.on_disconnect,
        }
    }
}

pub open spec fn rule_views(rules: Seq<PortRule>) -> Seq<RuleView> {
    rules.map_values(|rule: PortRule| rule@)
}

pub open spec fn default_rule(kind: PortKind) -> RuleView {
    RuleView { kind, bundle: "default"@, on_connect: false, on_disconnect: false }
}

impl PortRule {
    /// The rule of a kind for which the user has set up nothing.
    pub fn default_for(kind: PortKind) -> (rule: Self)
        ensures
            rule@ == default_rule(kind),
    {
        PortRule {
            kind,
            bundle: "default".to_string(),
            on_connect: false,
            on_disconnect: false,
        }
    }
}

/// The first rule of a kind, where there is one.
pub open spec fn first_rule(rules: Seq<RuleView>, kind: PortKind) -> Option<RuleView>
    decreases rules.len(),
{
    if rules.len() == 0 {
        None
    } else if rules[0].kind == kind {
        Some(rules[0])
    } else {
        first_rule(rules.drop_first(), kind)
    }
}

pub open spec fn rule_or_default(rules: Seq<RuleView>, kind: PortKind) -> RuleView {
    match first_rule(rules, kind) {
        Some(rule) => rule,
        None => default_rule(kind),
    }
}

/// One rule for each kind: the first that the list holds, or the default.
pub open spec fn repaired(rules: Seq<RuleView>) -> Seq<RuleView> {
    Seq::new(all_kinds().len(), |i: int| rule_or_default(rules, all_kinds()[i]))
}

/// The rules after a bundle has changed its name.
pub open spec fn renamed(rules: Seq<RuleView>, old_name: Seq<char>, new_name: Seq<char>) -> Seq<
    RuleView,
> {
    Seq::new(
        rules.len(),
        |i: int|
            if rules[i].bundle == old_name {
                RuleView { bundle: new_name, ..rules[i] }
            } else {
                rules[i]
            },
    )
}

/// Finds the first rule of a kind.
pub fn find_rule(rules: &Vec<PortRule>, kind: PortKind) -> (found: Option<usize>)
    ensures
        match found {
            Some(at) => at < rules@.len() && first_rule(rule_views(rules@), kind) == Some(
                rules@[at as int]@,
            ),
            None => first_rule(rule_views(rules@), kind) is None,
        },
{
    let ghost views = rule_views(rules@);
    let mut at: usize = 0;
    assert(views.skip(0) == views);
    while at < rules.len()
        invariant
            at <= rules@.len(),
            views == rule_views(rules@),
            first_rule(views, kind) == first_rule(views.skip(at as int), kind),
        decreases rules.len() - at,
    {
        assert(views.skip(at as int)[0] == rules@[at as int]@);
        if rules[at].kind == kind {
            return Some(at);
        }
        assert(views.skip(at as int).drop_first() == views.skip(at + 1));
        at += 1;
    }
    None
}

/// Makes every kind have exactly one rule, in the order of [`PortKind::all`].
/// Of several rules of one kind the first stays.
pub fn repair_rules(rules: &mut Vec<PortRule>)
    ensures
        rule_views(final(rules)@) == repaired(rule_views(old(rules)@)),
{
    let kinds = PortKind::all();
    let mut fixed: Vec<PortRule> = Vec::new();
    let mut i: usize = 0;
    while i < 5
        invariant
            i <= 5,
            kinds@ == all_kinds(),
            fixed@.len() == i,
            forall|j: int|
                0 <= j < i ==> (#[trigger] fixed@[j])@ == rule_or_default(
                    rule_views(rules@),
                    all_kinds()[j],
                ),
        decreases 5 - i,
    {
        let kind = kinds[i];
        match find_rule(rules, kind) {
            Some(at) => {
                fixed.push(rules[at].clone());
            },
            None => {
                fixed.push(PortRule::default_for(kind));
            },
        }
        i += 1;
    }
    assert(rule_views(fixed@) == repaired(rule_views(rules@)));
    *rules = fixed;
}

/// Follows a bundle's change of name in every rule that plays it.
pub fn update_rule_bundle(rules: &mut [PortRule], old_name: &str, new_name: &str)
    ensures
        rule_views(final(rules)@) == renamed(rule_views(old(rules)@), old_name@, new_name@),
{
    let mut i: usize = 0;
    while i < rules.len()
        invariant
            i <= rules@.len() == old(rules)@.len(),
            forall|j: int|
                0 <= j < i ==> (#[trigger] rules@[j])@ == renamed(
                    rule_views(old(rules)@),
                    old_name@,
                    new_name@,
                )[j],
            forall|j: int| i <= j < rules@.len() ==> rules@[j] == old(rules)@[j],
        decreases rules.len() - i,
    {
        if same_text(rules[i].bundle.as_str(), old_name) {
            rules[i].bundle = new_name.to_string();
        }
        i += 1;
    }
    assert(rule_views(rules@) == renamed(rule_views(old(rules)@), old_name@, new_name@));
}

/// What is known of the ports at one moment: connected, not connected, or (where
/// the machine cannot tell) nothing.
#[derive(Debug, Clone, Copy, PartialEq, Eq, Structural)]
pub struct PortSnapshot {
    pub charging: Option<bool>,
    pub usb_storage: Option<bool>,
    pub external_display: Option<bool>,
    pub ethernet: Option<bool>,
    pub thunderbolt_dock: Option<bool>,
}

/// A port of the given kind was plugged in (`connected`) or out.
#[derive(Debug, Clone, Copy, PartialEq, Eq, Structural)]
pub struct PortEvent {
    pub kind: PortKind,
    pub connected: bool,
}

/// What the user is told of one kind of port.
#[derive(Debug)]
pub struct PortCapability {
    pub kind: PortKind,
    pub label: String,
    pub supported: bool,
    pub connected: bool,
}

/// A capability with its label as a sequence of characters.
pub struct CapabilityView {
    pub kind: PortKind,
    pub label: Seq<char>,
    pub supported: bool,
    pub connected: bool,
}

impl View for PortCapability {
    type V = CapabilityView;

    open spec fn view(&self) -> CapabilityView {
        CapabilityView {
            kind: self.kind,
            label: self.label@,
            supported: self.supported,
            connected: self.connected,
        }
    }
}

impl PortSnapshot {
    pub open spec fn state(self, kind: PortKind) -> Option<bool> {
        match kind {
            PortKind::Charging => self.charging,
            PortKind::UsbStorage => self.usb_storage,
            PortKind::ExternalDisplay => self.external_display,
            PortKind::Ethernet => self.ethernet,
            PortKind::ThunderboltDock => self.thunderbolt_dock,
        }
    }

    /// The snapshot once the event has been taken into account.
    pub open spec fn after(self, event: PortEvent) -> PortSnapshot {
        let state = Some(event.connected);
        match event.kind {
            PortKind::Charging => PortSnapshot { charging: state, ..self },
            PortKind::UsbStorage => PortSnapshot { usb_storage: state, ..self },
            PortKind::ExternalDisplay => PortSnapshot { external_display: state, ..self },
            PortKind::Ethernet => PortSnapshot { ethernet: state, ..self },
            PortKind::ThunderboltDock => PortSnapshot { thunderbolt_dock: state, ..self },
        }
    }

    pub open spec fn after_all(self, events: Seq<PortEvent>) -> PortSnapshot
        decreases events.len(),
    {
        if events.len() == 0 {
            self
        } else {
            self.after_all(events.drop_last()).after(events.last())
        }
    }

    /// Takes the event into account.
    pub fn record(&mut self, event: PortEvent)
        ensures
            *final(self) == old(self).after(event),
    {
        let state = Some(event.connected);
        match event.kind {
            PortKind::Charging => {
                self.charging = state;
            },
            PortKind::UsbStorage => {
                self.usb_storage = state;
            },
            PortKind::ExternalDisplay => {
                self.external_display = state;
            },
            PortKind::Ethernet => {
                self.ethernet = state;
            },
            PortKind::ThunderboltDock => {
                self.thunderbolt_dock = state;
            },
        }
    }
}

/// The event that a port of this kind gives rise to: one where the state was
/// known before, is known now, and differs.
pub open spec fn change_of(
    previous: PortSnapshot,
    current: PortSnapshot,
    kind: PortKind,
) -> Option<PortEvent> {
    match (previous.state(kind), current.state(kind)) {
        (Some(before), Some(now)) => if before != now {
            Some(PortEvent { kind, connected: now })
        } else {
            None
        },
        _ => None,
    }
}

/// The changes among the given kinds, in their order.
pub open spec fn changes_among(
    previous: PortSnapshot,
    current: PortSnapshot,
    kinds: Seq<PortKind>,
) -> Seq<PortEvent>
    decreases kinds.len(),
{
    if kinds.len() == 0 {
        Seq::empty()
    } else {
        let earlier = changes_among(previous, current, kinds.drop_last());
        match change_of(previous, current, kinds.last()) {
            Some(event) => earlier.push(event),
            None => earlier,
        }
    }
}

pub open spec fn changes(previous: PortSnapshot, current: PortSnapshot) -> Seq<PortEvent> {
    changes_among(previous, current, all_kinds())
}

pub open spec fn capability(snapshot: PortSnapshot, kind: PortKind) -> CapabilityView {
    CapabilityView {
        kind,
        label: kind.label_spec(),
        supported: snapshot.state(kind) is Some,
        connected: snapshot.state(kind) == Some(true),
    }
}

/// The state of one kind of port.
pub fn snapshot_for_kind(snapshot: PortSnapshot, kind: PortKind) -> (state: Option<bool>)
    ensures
        state == snapshot.state(kind),
{
    match kind {
        PortKind::Charging => snapshot.charging,
        PortKind::UsbStorage => snapshot.usb_storage,
        PortKind::ExternalDisplay => snapshot.external_display,
        PortKind::Ethernet => snapshot.ethernet,
        PortKind::ThunderboltDock => snapshot.thunderbolt_dock,
    }
}

/// The events to report when the ports went from `previous` to `current`.
pub fn emit_changes(previous: PortSnapshot, current: PortSnapshot) -> (events: Vec<PortEvent>)
    ensures
        events@ == changes(previous, current),
{
    let kinds = PortKind::all();
    let mut events: Vec<PortEvent> = Vec::new();
    let mut i: usize = 0;
    while i < 5
        invariant
            i <= 5,
            kinds@ == all_kinds(),
            events@ == changes_among(previous, current, all_kinds().take(i as int)),
        decreases 5 - i,
    {
        let kind = kinds[i];
        assert(all_kinds().take(i + 1).drop_last() == all_kinds().take(i as int));
        let before = snapshot_for_kind(previous, kind);
        let now = snapshot_for_kind(current, kind);
        if let (Some(before), Some(now)) = (before, now) {
            if before != now {
                events.push(PortEvent { kind, connected: now });
            }
        }
        i += 1;
    }
    assert(all_kinds().take(5) == all_kinds());
    events
}

/// What to tell the user of every kind of port.
pub fn probe_port_capabilities(snapshot: PortSnapshot) -> (capabilities: Vec<PortCapability>)
    ensures
        capabilities@.len() == all_kinds().len(),
        forall|i: int|
            0 <= i < capabilities@.len() ==> (#[trigger] capabilities@[i])@ == capability(
                snapshot,
                all_kinds()[i],
            ),
{
    let kinds = PortKind::all();
    let mut capabilities: Vec<PortCapability> = Vec::new();
    let mut i: usize = 0;
    while i < 5
        invariant
            i <= 5,
            kinds@ == all_kinds(),
            capabilities@.len() == i,
            forall|j: int|
                0 <= j < i ==> (#[trigger] capabilities@[j])@ == capability(
                    snapshot,
                    all_kinds()[j],
                ),
        decreases 5 - i,
    {
        let kind = kinds[i];
        let state = snapshot_for_kind(snapshot, kind);
        capabilities.push(
            PortCapability {
                kind,
                label: kind.label().to_string(),
                supported: state.is_some(),
                connected: state.unwrap_or(false),
            },
        );
        i += 1;
    }
    capabilities
}

/// The operating system that the program runs on.
#[derive(Debug, Clone, Copy, PartialEq, Eq, Structural)]
pub enum Platform {
    Windows,
    MacOs,
    Linux,
    Other,
}

pub open spec fn platform_label_spec(platform: Platform) -> Seq<char> {
    match platform {
        Platform::Windows => "Windows"@,
        Platform::MacOs => "macOS"@,
        Platform::Linux => "Linux"@,
        Platform::Other => "Unknown"@,
    }
}

pub fn platform_label(platform: Platform) -> (label: &'static str)
    ensures
        label@ == platform_label_spec(platform),
{
    match platform {
        Platform::Windows => "Windows",
        Platform::MacOs => "macOS",
        Platform::Linux => "Linux",
        Platform::Other => "Unknown",
    }
}

pub open spec fn port_monitor_mode_label_spec(platform: Platform, udev: bool) -> Seq<char> {
    if platform == Platform::MacOs {
        "Event-driven (IOKit) with snapshot fallback"@
    } else if platform == Platform::Linux && udev {
        "Event-driven (udev) with snapshot fallback"@
    } else {
        "Snapshot polling"@
    }
}

/// How the ports are watched; `udev` tells whether the program was built to
/// listen to udev on Linux.
pub fn port_monitor_mode_label(platform: Platform, udev: bool) -> (label: &'static str)
    ensures
        label@ == port_monitor_mode_label_spec(platform, udev),
{
    match platform {
        Platform::MacOs => "Event-driven (IOKit) with snapshot fallback",
        Platform::Linux => if udev {
            "Event-driven (udev) with snapshot fallback"
        } else {
            "Snapshot polling"
        },
        Platform::Windows | Platform::Other => "Snapshot polling",
    }
}

// ── Laws ─────────────────────────────────────────────────────────────

/// Repaired rules hold each kind once, in the order in which kinds are listed,
/// and repairing them again changes nothing.
pub proof fn law_repair_is_complete_and_stable(rules: Seq<RuleView>)
    ensures
        repaired(rules).len() == all_kinds().len(),
        forall|i: int|
            0 <= i < all_kinds().len() ==> (#[trigger] repaired(rules)[i]).kind == all_kinds()[i],
        forall|kind: PortKind|
            first_rule(repaired(rules), kind) == Some(rule_or_default(rules, kind)),
        repaired(repaired(rules)) == repaired(rules),
{
    let fixed = repaired(rules);
    assert forall|kind: PortKind| (#[trigger] rule_or_default(rules, kind)).kind == kind by {
        lemma_first_rule_kind(rules, kind);
    }
    assert forall|kind: PortKind|
        first_rule(fixed, kind) == Some(rule_or_default(rules, kind)) by {
        reveal_with_fuel(first_rule, 6);
        assert(fixed.drop_first() == fixed.skip(1));
        assert(fixed.skip(1).drop_first() == fixed.skip(2));
        assert(fixed.skip(2).drop_first() == fixed.skip(3));
        assert(fixed.skip(3).drop_first() == fixed.skip(4));
    }
    assert(repaired(fixed) == fixed);
}

/// Rules that hold each kind once, in the order in which kinds are listed, need no
/// repair.
pub proof fn lemma_complete_rules_stay(rules: Seq<RuleView>)
    requires
        rules.len() == all_kinds().len(),
        forall|i: int| 0 <= i < rules.len() ==> (#[trigger] rules[i]).kind == all_kinds()[i],
    ensures
        repaired(rules) == rules,
{
    assert forall|i: int| 0 <= i < rules.len() implies #[trigger] rules[i] == repaired(
        rules,
    )[i] by {
        law_repair_keeps_the_first_rule(rules, i);
    }
    assert(repaired(rules) =~= rules);
}

proof fn lemma_first_rule_kind(rules: Seq<RuleView>, kind: PortKind)
    ensures
        first_rule(rules, kind) matches Some(rule) ==> rule.kind == kind && rules.contains(rule),
    decreases rules.len(),
{
    if rules.len() > 0 {
        if rules[0].kind == kind {
            assert(rules.contains(rules[0]));
        } else {
            lemma_first_rule_kind(rules.drop_first(), kind);
            if let Some(rule) = first_rule(rules.drop_first(), kind) {
                let at = choose|at: int|
                    0 <= at < rules.drop_first().len() && rules.drop_first()[at] == rule;
                assert(rules[at + 1] == rule);
            }
        }
    }
}

/// Repairing never makes a rule up where the list has one of the kind: the rule
/// that stays is the list's first of that kind, unchanged.
pub proof fn law_repair_keeps_the_first_rule(rules: Seq<RuleView>, at: int)
    requires
        0 <= at < rules.len(),
        forall|i: int| 0 <= i < at ==> rules[i].kind != rules[at].kind,
    ensures
        rule_or_default(rules, rules[at].kind) == rules[at],
    decreases rules.len(),
{
    if at > 0 {
        assert(rules[0].kind != rules[at].kind);
        law_repair_keeps_the_first_rule(rules.drop_first(), at - 1);
    }
}

/// After a rename no rule plays the old name, and renaming back restores the
/// rules if the new name was free.
pub proof fn law_rename_can_be_undone(
    rules: Seq<RuleView>,
    old_name: Seq<char>,
    new_name: Seq<char>,
)
    requires
        old_name != new_name,
    ensures
        forall|i: int|
            0 <= i < rules.len() ==> (#[trigger] renamed(rules, old_name, new_name)[i]).bundle
                != old_name,
        (forall|i: int| 0 <= i < rules.len() ==> (#[trigger] rules[i]).bundle != new_name)
            ==> renamed(renamed(rules, old_name, new_name), new_name, old_name) == rules,
{
    if forall|i: int| 0 <= i < rules.len() ==> (#[trigger] rules[i]).bundle != new_name {
        assert(renamed(renamed(rules, old_name, new_name), new_name, old_name) =~= rules);
    }
}

/// Every reported event is a real change between two known states, no kind is
/// reported twice, and nothing is reported when nothing changed.
pub proof fn law_changes_are_real(previous: PortSnapshot, current: PortSnapshot)
    ensures
        forall|i: int|
            #![trigger changes(previous, current)[i]]
            0 <= i < changes(previous, current).len() ==> {
                let event = changes(previous, current)[i];
                previous.state(event.kind) == Some(!event.connected) && current.state(event.kind)
                    == Some(event.connected)
            },
        forall|i: int, j: int|
            #![trigger changes(previous, current)[i], changes(previous, current)[j]]
            0 <= i < j < changes(previous, current).len() ==> changes(previous, current)[i].kind
                != changes(previous, current)[j].kind,
        changes(previous, previous) == Seq::<PortEvent>::empty(),
{
    lemma_changes_unfolded(previous, current);
    lemma_changes_unfolded(previous, previous);
}

proof fn lemma_changes_unfolded(previous: PortSnapshot, current: PortSnapshot)
    ensures
        changes(previous, current) == single(previous, current, PortKind::Charging) + single(
            previous,
            current,
            PortKind::UsbStorage,
        ) + single(previous, current, PortKind::ExternalDisplay) + single(
            previous,
            current,
            PortKind::Ethernet,
        ) + single(previous, current, PortKind::ThunderboltDock),
{
    let kinds = all_kinds();
    reveal_with_fuel(changes_among, 6);
    assert(kinds.drop_last() == kinds.take(4));
    assert(kinds.take(4).drop_last() == kinds.take(3));
    assert(kinds.take(3).drop_last() == kinds.take(2));
    assert(kinds.take(2).drop_last() == kinds.take(1));
    assert(kinds.take(1).drop_last() == kinds.take(0));
    assert(changes(previous, current) =~= single(previous, current, PortKind::Charging) + single(
        previous,
        current,
        PortKind::UsbStorage,
    ) + single(previous, current, PortKind::ExternalDisplay) + single(
        previous,
        current,
        PortKind::Ethernet,
    ) + single(previous, current, PortKind::ThunderboltDock));
}

spec fn single(previous: PortSnapshot, current: PortSnapshot, kind: PortKind) -> Seq<PortEvent> {
    match change_of(previous, current, kind) {
        Some(event) => seq![event],
        None => Seq::empty(),
    }
}

/// A listener that follows the reported events ends up with the current state of
/// every port whose state was known before and is known now; of the other ports
/// it keeps what it had.
pub proof fn law_changes_bring_up_to_date(
    previous: PortSnapshot,
    current: PortSnapshot,
    kind: PortKind,
)
    ensures
        previous.after_all(changes(previous, current)).state(kind) == if previous.state(kind) is Some
            && current.state(kind) is Some {
            current.state(kind)
        } else {
            previous.state(kind)
        },
{
    lemma_follow(previous, current, all_kinds(), kind);
    assert(all_kinds()[0] == PortKind::Charging);
    assert(all_kinds()[1] == PortKind::UsbStorage);
    assert(all_kinds()[2] == PortKind::ExternalDisplay);
    assert(all_kinds()[3] == PortKind::Ethernet);
    assert(all_kinds()[4] == PortKind::ThunderboltDock);
    assert(all_kinds().contains(kind));
}

proof fn lemma_follow(
    previous: PortSnapshot,
    current: PortSnapshot,
    kinds: Seq<PortKind>,
    kind: PortKind,
)
    ensures
        previous.after_all(changes_among(previous, current, kinds)).state(kind) == if kinds.contains(
            kind,
        ) && previous.state(kind) is Some && current.state(kind) is Some {
            current.state(kind)
        } else {
            previous.state(kind)
        },
    decreases kinds.len(),
{
    if kinds.len() > 0 {
        let rest = kinds.drop_last();
        let earlier = changes_among(previous, current, rest);
        lemma_follow(previous, current, rest, kind);
        if rest.contains(kind) {
            let at = choose|at: int| 0 <= at < rest.len() && rest[at] == kind;
            assert(kinds[at] == kind);
        }
        if kinds.contains(kind) && kind != kinds.last() {
            let at = choose|at: int| 0 <= at < kinds.len() && kinds[at] == kind;
            assert(rest[at] == kind);
        }
        assert(kind == kinds.last() ==> kinds[kinds.len() - 1] == kind);
        if let Some(event) = change_of(previous, current, kinds.last()) {
            assert(earlier.push(event).drop_last() == earlier);
        }
    }
}

/// Each kind of port has its own place in a snapshot.
pub proof fn law_every_kind_has_its_place(snapshot: PortSnapshot)
    ensures
        snapshot.state(PortKind::Charging) == snapshot.charging,
        snapshot.state(PortKind::UsbStorage) == snapshot.usb_storage,
        snapshot.state(PortKind::ExternalDisplay) == snapshot.external_display,
        snapshot.state(PortKind::Ethernet) == snapshot.ethernet,
        snapshot.state(PortKind::ThunderboltDock) == snapshot.thunderbolt_dock,
{
}

/// An event changes the state of its own kind of port and of no other.
pub proof fn law_an_event_changes_one_port(
    snapshot: PortSnapshot,
    event: PortEvent,
    kind: PortKind,
)
    ensures
        snapshot.after(event).state(kind) == if kind == event.kind {
            Some(event.connected)
        } else {
            snapshot.state(kind)
        },
{
}

/// A change is reported just where a known state gave way to the other known state,
/// and the report tells the new one.
pub proof fn law_just_the_changes_are_reported(
    previous: PortSnapshot,
    current: PortSnapshot,
    kind: PortKind,
    connected: bool,
)
    ensures
        changes(previous, current).contains(PortEvent { kind, connected }) <==> previous.state(kind)
            == Some(!connected) && current.state(kind) == Some(connected),
{
    let event = PortEvent { kind, connected };
    let all = changes(previous, current);
    lemma_changes_unfolded(previous, current);
    let a = single(previous, current, PortKind::Charging);
    let b = single(previous, current, PortKind::UsbStorage);
    let c = single(previous, current, PortKind::ExternalDisplay);
    let d = single(previous, current, PortKind::Ethernet);
    let e = single(previous, current, PortKind::ThunderboltDock);
    assert(all == a + b + c + d + e);
    law_changes_are_real(previous, current);
    if all.contains(event) {
        let i = choose|i: int| 0 <= i < all.len() && all[i] == event;
        assert(changes(previous, current)[i].kind == kind);
    }
    if previous.state(kind) == Some(!connected) && current.state(kind) == Some(connected) {
        let own = single(previous, current, kind);
        assert(own[0] == event);
        let at = match kind {
            PortKind::Charging => 0int,
            PortKind::UsbStorage => a.len() as int,
            PortKind::ExternalDisplay => (a + b).len() as int,
            PortKind::Ethernet => (a + b + c).len() as int,
            PortKind::ThunderboltDock => (a + b + c + d).len() as int,
        };
        assert(all[at] == event);
    }
}

/// What the user is told of a kind of port: it is supported where its state is
/// known, and connected where the state is known to be so.
pub proof fn law_what_the_user_is_told(snapshot: PortSnapshot, kind: PortKind)
    ensures
        capability(snapshot, kind).kind == kind,
        capability(snapshot, kind).label == kind.label_spec(),
        capability(snapshot, kind).supported <==> snapshot.state(kind) != None::<bool>,
        capability(snapshot, kind).connected <==> snapshot.state(kind) is Some && snapshot.state(
            kind,
        )->0,
{
}

/// The rule of a kind is the first one of that kind: no earlier rule is of the kind,
/// and there is none just where no rule is of the kind.
pub proof fn law_the_first_rule_counts(rules: Seq<RuleView>, kind: PortKind)
    ensures
        first_rule(rules, kind) is None <==> forall|i: int|
            0 <= i < rules.len() ==> (#[trigger] rules[i]).kind != kind,
        first_rule(rules, kind) matches Some(rule) ==> exists|at: int| #[trigger]
            is_first_of_kind(rules, kind, at) && rules[at] == rule,
    decreases rules.len(),
{
    if rules.len() > 0 {
        let rest = rules.drop_first();
        law_the_first_rule_counts(rest, kind);
        if rules[0].kind == kind {
            assert(is_first_of_kind(rules, kind, 0));
        } else {
            if first_rule(rest, kind) is Some {
                let at = choose|at: int| #[trigger]
                    is_first_of_kind(rest, kind, at) && rest[at] == first_rule(rest, kind)->0;
                assert(rules[at + 1] == rest[at]);
                assert forall|i: int| 0 <= i < at + 1 implies (#[trigger] rules[i]).kind != kind by {
                    if i > 0 {
                        assert(rules[i] == rest[i - 1]);
                    }
                }
                assert(is_first_of_kind(rules, kind, at + 1));
            } else {
                assert forall|i: int| 0 <= i < rules.len() implies (#[trigger] rules[i]).kind
                    != kind by {
                    if i > 0 {
                        assert(rules[i] == rest[i - 1]);
                    }
                }
            }
        }
    }
}

/// The rule at this place is of the kind, and none before it is.
pub open spec fn is_first_of_kind(rules: Seq<RuleView>, kind: PortKind, at: int) -> bool {
    0 <= at < rules.len() && rules[at].kind == kind && forall|i: int|
        0 <= i < at ==> (#[trigger] rules[i]).kind != kind
}

/// A kind without a rule gets one that never sounds of itself.
pub proof fn law_made_up_rules_are_silent(rules: Seq<RuleView>, kind: PortKind)
    requires
        forall|i: int| 0 <= i < rules.len() ==> (#[trigger] rules[i]).kind != kind,
    ensures
        ({
            let rule = rule_or_default(rules, kind);
            &&& rule.kind == kind
            &&& rule.bundle == "default"@
            &&& !rule.on_connect && !rule.on_disconnect
        }),
{
    law_the_first_rule_counts(rules, kind);
}

/// Renaming a bundle changes the rules that play it, in their bundle only, and no
/// other rule.
pub proof fn law_rename_changes_just_that_bundle(
    rules: Seq<RuleView>,
    old_name: Seq<char>,
    new_name: Seq<char>,
    i: int,
)
    requires
        0 <= i < rules.len(),
    ensures
        renamed(rules, old_name, new_name).len() == rules.len(),
        ({
            let rule = renamed(rules, old_name, new_name)[i];
            &&& rules[i].bundle == old_name ==> rule.bundle == new_name
            &&& rules[i].bundle != old_name ==> rule.bundle == rules[i].bundle
            &&& rule.kind == rules[i].kind
            &&& rule.on_connect == rules[i].on_connect
            &&& rule.on_disconnect == rules[i].on_disconnect
        }),
{
}

/// What the user reads of a kind of port, a platform and a way of watching: each has
/// a text of its own.
pub proof fn law_labels(kind: PortKind, other: PortKind, platform: Platform, udev: bool)
    ensures
        kind.label_spec() == other.label_spec() ==> kind == other,
        kind == PortKind::Charging <==> kind.label_spec() == "Charging / power"@,
        kind == PortKind::UsbStorage <==> kind.label_spec() == "USB storage / pendrive"@,
        kind == PortKind::ExternalDisplay <==> kind.label_spec() == "HDMI / external display"@,
        kind == PortKind::Ethernet <==> kind.label_spec() == "LAN / ethernet"@,
        kind == PortKind::ThunderboltDock <==> kind.label_spec() == "Thunderbolt / dock"@,
        platform == Platform::Windows <==> platform_label_spec(platform) == "Windows"@,
        platform == Platform::MacOs <==> platform_label_spec(platform) == "macOS"@,
        platform == Platform::Linux <==> platform_label_spec(platform) == "Linux"@,
        platform == Platform::Other <==> platform_label_spec(platform) == "Unknown"@,
        platform == Platform::MacOs ==> port_monitor_mode_label_spec(platform, udev)
            == "Event-driven (IOKit) with snapshot fallback"@,
        platform == Platform::Linux && udev ==> port_monitor_mode_label_spec(platform, udev)
            == "Event-driven (udev) with snapshot fallback"@,
        platform != Platform::MacOs && (platform != Platform::Linux || !udev)
            ==> port_monitor_mode_label_spec(platform, udev) == "Snapshot polling"@,
{
    reveal_strlit("Charging / power");
    reveal_strlit("USB storage / pendrive");
    reveal_strlit("HDMI / external display");
    reveal_strlit("LAN / ethernet");
    reveal_strlit("Thunderbolt / dock");
    assert("Charging / power"@[0] == 'C');
    assert("USB storage / pendrive"@[0] == 'U');
    assert("HDMI / external display"@[0] == 'H');
    assert("LAN / ethernet"@[0] == 'L');
    assert("Thunderbolt / dock"@[0] == 'T');
    reveal_strlit("Windows");
    reveal_strlit("macOS");
    reveal_strlit("Linux");
    reveal_strlit("Unknown");
    assert("macOS"@[0] == 'm');
    assert("Linux"@[0] == 'L');
    assert("Windows"@[0] == 'W');
    assert("Unknown"@[0] == 'U');
}

} // verus!
