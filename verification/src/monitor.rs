//! Watching the ports: what is reported, and when it is time to look.

use vstd::prelude::*;

use crate::ports::{
    changes, emit_changes, law_changes_are_real, law_changes_bring_up_to_date, snapshot_for_kind,
    PortEvent, PortKind, PortSnapshot,
};
use crate::probe_windows::{guid_equals, same_guid, Guid};
use crate::text::same_text;

verus! {

// ── What is reported ─────────────────────────────────────────────────

/// The monitor, by what it knows of the ports.
#[derive(Debug, Clone, Copy, PartialEq, Eq, Structural)]
pub struct PortMonitor {
    pub previous: PortSnapshot,
}

/// The event tells something that is not known.
pub open spec fn is_news(known: PortSnapshot, event: PortEvent) -> bool {
    known.state(event.kind) != Some(event.connected)
}

/// The events that are news, each taken into account before the next.
pub open spec fn news(known: PortSnapshot, events: Seq<PortEvent>) -> Seq<PortEvent>
    decreases events.len(),
{
    if events.len() == 0 {
        Seq::empty()
    } else {
        let earlier = news(known, events.drop_last());
        if is_news(known.after_all(earlier), events.last()) {
            earlier.push(events.last())
        } else {
            earlier
        }
    }
}

impl PortMonitor {
    pub fn new(snapshot: PortSnapshot) -> (monitor: PortMonitor)
        ensures
            monitor.previous == snapshot,
    {
        PortMonitor { previous: snapshot }
    }

    /// Takes a look at the ports: reports what has changed.
    pub fn observe(&mut self, current: PortSnapshot) -> (events: Vec<PortEvent>)
        ensures
            events@ == changes(old(self).previous, current),
            final(self).previous == current,
    {
        let events = emit_changes(self.previous, current);
        self.previous = current;
        events
    }

    /// Takes events that the system told of itself: reports those that are news.
    pub fn notice(&mut self, told: &Vec<PortEvent>) -> (events: Vec<PortEvent>)
        ensures
            events@ == news(old(self).previous, told@),
            final(self).previous == old(self).previous.after_all(events@),
    {
        let ghost known = self.previous;
        let mut events: Vec<PortEvent> = Vec::new();
        let mut i: usize = 0;
        assert(events@ == news(known, told@.take(0)));
        while i < told.len()
            invariant
                i <= told@.len(),
                events@ == news(known, told@.take(i as int)),
                self.previous == known.after_all(events@),
            decreases told.len() - i,
        {
            proof {
                assert(told@.take(i + 1).drop_last() == told@.take(i as int));
                assert(told@.take(i + 1).last() == told@[i as int]);
            }
            let event = told[i];
            if snapshot_for_kind(self.previous, event.kind) != Some(event.connected) {
                assert(events@.push(event).drop_last() == events@);
                self.previous.record(event);
                events.push(event);
            }
            i += 1;
        }
        assert(told@.take(told@.len() as int) == told@);
        events
    }
}

/// What one turn of a loop that is told of events and may also look brings: the
/// events that it was told of, and what it saw.
pub struct Turn {
    pub told: Seq<PortEvent>,
    pub look: Option<PortSnapshot>,
}

/// What is known after the events that a turn was told of.
pub open spec fn known_when_told(known: PortSnapshot, turn: Turn) -> PortSnapshot {
    known.after_all(news(known, turn.told))
}

/// One turn: what is known after it, and what it reports. The news comes first,
/// then what the look shows beyond it.
pub open spec fn turn_step(known: PortSnapshot, turn: Turn) -> (PortSnapshot, Seq<PortEvent>) {
    let fresh = news(known, turn.told);
    match turn.look {
        Some(current) => (current, fresh + changes(known_when_told(known, turn), current)),
        None => (known_when_told(known, turn), fresh),
    }
}

impl PortMonitor {
    /// One turn of a loop that is told of events and may also look: reports the
    /// news, then what the look shows beyond them.
    pub fn turn(&mut self, told: &Vec<PortEvent>, look: Option<PortSnapshot>) -> (events: Vec<
        PortEvent,
    >)
        ensures
            (final(self).previous, events@) == turn_step(
                old(self).previous,
                (Turn { told: told@, look }),
            ),
    {
        let mut events = self.notice(told);
        if let Some(current) = look {
            let mut changed = self.observe(current);
            events.append(&mut changed);
        }
        events
    }
}

// ── Laws ─────────────────────────────────────────────────────────────

/// A series of turns: what is known after it, and all that it reports.
pub open spec fn watch(first: PortSnapshot, turns: Seq<Turn>) -> (PortSnapshot, Seq<PortEvent>)
    decreases turns.len(),
{
    if turns.len() == 0 {
        (first, Seq::empty())
    } else {
        let (known, events) = watch(first, turns.drop_last());
        let (after, more) = turn_step(known, turns.last());
        (after, events + more)
    }
}

/// The last report on a port, if there is one.
pub open spec fn last_report(events: Seq<PortEvent>, kind: PortKind) -> Option<bool>
    decreases events.len(),
{
    if events.len() == 0 {
        None
    } else if events.last().kind == kind {
        Some(events.last().connected)
    } else {
        last_report(events.drop_last(), kind)
    }
}

/// What a listener takes the state of a port to be: the last report on it, or
/// where there is none what the first look showed.
pub open spec fn last_word(
    first: PortSnapshot,
    events: Seq<PortEvent>,
    kind: PortKind,
) -> Option<bool> {
    match last_report(events, kind) {
        Some(connected) => Some(connected),
        None => first.state(kind),
    }
}

/// The turn's look cannot tell the state of a port that was known until then.
pub open spec fn loses_sight(known: PortSnapshot, turn: Turn, kind: PortKind) -> bool {
    known_when_told(known, turn).state(kind) is Some && (turn.look matches Some(current)
        && current.state(kind) is None)
}

/// No turn of the series loses sight of the port.
pub open spec fn keeps_sight(first: PortSnapshot, turns: Seq<Turn>, kind: PortKind) -> bool
    decreases turns.len(),
{
    turns.len() > 0 ==> keeps_sight(first, turns.drop_last(), kind) && !loses_sight(
        watch(first, turns.drop_last()).0,
        turns.last(),
        kind,
    )
}

proof fn lemma_after_all(known: PortSnapshot, events: Seq<PortEvent>, kind: PortKind)
    ensures
        known.after_all(events).state(kind) == last_word(known, events, kind),
    decreases events.len(),
{
    if events.len() > 0 {
        lemma_after_all(known, events.drop_last(), kind);
    }
}

proof fn lemma_last_report_of_both(first: Seq<PortEvent>, second: Seq<PortEvent>, kind: PortKind)
    ensures
        last_report(first + second, kind) == match last_report(second, kind) {
            Some(connected) => Some(connected),
            None => last_report(first, kind),
        },
    decreases second.len(),
{
    if second.len() == 0 {
        assert(first + second == first);
    } else {
        assert((first + second).drop_last() == first + second.drop_last());
        lemma_last_report_of_both(first, second.drop_last(), kind);
    }
}

/// Every event that is news says something else than what was known before it.
proof fn lemma_news_is_new(known: PortSnapshot, told: Seq<PortEvent>, i: int)
    requires
        0 <= i < news(known, told).len(),
    ensures
        ({
            let fresh = news(known, told);
            last_word(known, fresh.take(i), fresh[i].kind) != Some(fresh[i].connected)
        }),
    decreases told.len(),
{
    let fresh = news(known, told);
    let earlier = news(known, told.drop_last());
    if i < earlier.len() {
        lemma_news_is_new(known, told.drop_last(), i);
        assert(fresh.take(i) == earlier.take(i));
    } else {
        assert(fresh.take(i) == earlier);
        lemma_after_all(known, earlier, told.last().kind);
    }
}

proof fn lemma_no_report(events: Seq<PortEvent>, kind: PortKind)
    requires
        forall|i: int| 0 <= i < events.len() ==> (#[trigger] events[i]).kind != kind,
    ensures
        last_report(events, kind) is None,
    decreases events.len(),
{
    if events.len() > 0 {
        assert(events[events.len() - 1].kind != kind);
        assert forall|i: int| 0 <= i < events.drop_last().len() implies (
        #[trigger] events.drop_last()[i]).kind != kind by {
            assert(events[i].kind != kind);
        }
        lemma_no_report(events.drop_last(), kind);
    }
}

/// Every change says something else than what was known before it.
proof fn lemma_changes_are_new(known: PortSnapshot, current: PortSnapshot, i: int)
    requires
        0 <= i < changes(known, current).len(),
    ensures
        ({
            let found = changes(known, current);
            &&& known.state(found[i].kind) == Some(!found[i].connected)
            &&& last_report(found.take(i), found[i].kind) is None
        }),
{
    let found = changes(known, current);
    law_changes_are_real(known, current);
    assert forall|j: int| 0 <= j < found.take(i).len() implies (#[trigger] found.take(i)[j]).kind
        != found[i].kind by {
        assert(found.take(i)[j] == found[j]);
    }
    lemma_no_report(found.take(i), found[i].kind);
}

/// What is known of a port is the listener's last word on it. Where nothing was
/// known of it at first and nothing was reported, a look may have shown its state
/// without a report.
spec fn in_step(
    first: PortSnapshot,
    known: PortSnapshot,
    events: Seq<PortEvent>,
    kind: PortKind,
) -> bool {
    let word = last_word(first, events, kind);
    word == known.state(kind) || (first.state(kind) is None && word is None)
}

proof fn lemma_watch_in_step(first: PortSnapshot, turns: Seq<Turn>, kind: PortKind)
    requires
        keeps_sight(first, turns, kind),
    ensures
        in_step(first, watch(first, turns).0, watch(first, turns).1, kind),
    decreases turns.len(),
{
    if turns.len() > 0 {
        let (known, events) = watch(first, turns.drop_last());
        let turn = turns.last();
        let fresh = news(known, turn.told);
        lemma_watch_in_step(first, turns.drop_last(), kind);
        lemma_after_all(known, fresh, kind);
        lemma_last_report_of_both(events, fresh, kind);
        let told = known_when_told(known, turn);
        assert(in_step(first, told, events + fresh, kind));
        if let Some(current) = turn.look {
            let found = changes(told, current);
            lemma_after_all(told, found, kind);
            law_changes_bring_up_to_date(told, current, kind);
            lemma_last_report_of_both(events + fresh, found, kind);
            assert(events + fresh + found == events + (fresh + found));
        }
    }
}

/// No report repeats itself: over any series of turns, told events and looks
/// mixed, each report on a port differs from the last report on it, or from the
/// first look where there is none. This holds of every port that no turn before the
/// last loses sight of; once one did, the monitor does not know any more what it
/// last reported.
pub proof fn law_reports_alternate(
    first: PortSnapshot,
    turns: Seq<Turn>,
    kind: PortKind,
    i: int,
)
    requires
        keeps_sight(first, turns.drop_last(), kind),
        0 <= i < watch(first, turns).1.len(),
        watch(first, turns).1[i].kind == kind,
    ensures
        ({
            let events = watch(first, turns).1;
            last_word(first, events.take(i), kind) != Some(events[i].connected)
        }),
    decreases turns.len(),
{
    let (known, events) = watch(first, turns.drop_last());
    let turn = turns.last();
    let fresh = news(known, turn.told);
    let told = known_when_told(known, turn);
    let all = watch(first, turns).1;
    lemma_watch_in_step(first, turns.drop_last(), kind);
    if i < events.len() {
        law_reports_alternate(first, turns.drop_last(), kind, i);
        assert(all.take(i) == events.take(i));
    } else if i < events.len() + fresh.len() {
        let j = i - events.len();
        assert(all[i] == fresh[j]);
        assert(all.take(i) == events + fresh.take(j));
        lemma_last_report_of_both(events, fresh.take(j), kind);
        lemma_news_is_new(known, turn.told, j);
    } else {
        let found = changes(told, turn.look->0);
        let j = i - events.len() - fresh.len();
        assert(all[i] == found[j]);
        assert(all.take(i) == events + fresh + found.take(j));
        lemma_last_report_of_both(events + fresh, found.take(j), kind);
        lemma_last_report_of_both(events, fresh, kind);
        lemma_after_all(known, fresh, kind);
        lemma_changes_are_new(told, turn.look->0, j);
    }
}

/// A listener that knows how the monitor began and follows what it reports knows
/// the state of every port that the first look told and no look loses sight of.
pub proof fn law_listeners_keep_up(first: PortSnapshot, turns: Seq<Turn>, kind: PortKind)
    requires
        first.state(kind) is Some,
        keeps_sight(first, turns, kind),
    ensures
        last_word(first, watch(first, turns).1, kind) == watch(first, turns).0.state(kind),
        first.after_all(watch(first, turns).1).state(kind) == watch(first, turns).0.state(kind),
{
    lemma_watch_in_step(first, turns, kind);
    lemma_after_all(first, watch(first, turns).1, kind);
}

/// Told the same thing twice in a row, whatever it was told before, the monitor
/// reports it no more than once.
pub proof fn law_no_news_twice(known: PortSnapshot, told: Seq<PortEvent>, event: PortEvent)
    ensures
        news(known, told.push(event).push(event)) == news(known, told.push(event)),
{
    let once = told.push(event);
    let twice = once.push(event);
    assert(twice.drop_last() == once);
    assert(once.drop_last() == told);
    let fresh = news(known, told);
    if is_news(known.after_all(fresh), event) {
        assert(fresh.push(event).drop_last() == fresh);
        assert(known.after_all(news(known, once)) == known.after_all(fresh).after(event));
    }
}

// ── Windows ──────────────────────────────────────────────────────────

/// What the wait of the Windows loop ended with.
#[derive(Debug, Clone, Copy, PartialEq, Eq, Structural)]
pub enum WaitOutcome {
    Stop,
    Dirty,
    Messages,
    Again,
}

/// What a wait for the stop event, the dirty event and messages returned: their
/// place in that order, or all ones where the wait failed, which ends the loop.
pub fn wait_outcome(result: u32) -> (outcome: WaitOutcome)
    ensures
        outcome == WaitOutcome::Stop <==> result == 0 || result == u32::MAX,
        outcome == WaitOutcome::Dirty <==> result == 1,
        outcome == WaitOutcome::Messages <==> result == 2,
{
    if result == 0 || result == u32::MAX {
        WaitOutcome::Stop
    } else if result == 1 {
        WaitOutcome::Dirty
    } else if result == 2 {
        WaitOutcome::Messages
    } else {
        WaitOutcome::Again
    }
}

/// Whether the Windows loop looks at the ports: always after the dirty event, and
/// after messages where they have set it.
pub fn look_after_wait(outcome: WaitOutcome, dirty: bool) -> (look: bool)
    ensures
        look == (outcome == WaitOutcome::Dirty || outcome == WaitOutcome::Messages && dirty),
{
    match outcome {
        WaitOutcome::Dirty => true,
        WaitOutcome::Messages => dirty,
        _ => false,
    }
}

pub const WM_DESTROY: u32 = 0x0002;

pub const WM_NCCREATE: u32 = 0x0081;

pub const WM_POWERBROADCAST: u32 = 0x0218;

pub const WM_DEVICECHANGE: u32 = 0x0219;

pub const DBT_DEVNODES_CHANGED: u32 = 0x0007;

pub const DBT_DEVICEARRIVAL: u32 = 0x8000;

pub const DBT_DEVICEREMOVECOMPLETE: u32 = 0x8004;

pub const PBT_POWERSETTINGCHANGE: u32 = 0x8013;

/// A message to the monitor's window: its number, its parameter, and for a change
/// of a power setting which setting it is.
pub struct WindowMessage {
    pub number: u32,
    pub parameter: u32,
    pub setting: Option<Guid>,
}

/// What the monitor's window does with a message.
#[derive(Debug, Clone, Copy, PartialEq, Eq, Structural)]
pub enum WindowAction {
    /// Remembers the monitor that it belongs to.
    Attach,
    /// Makes the loop look at the ports.
    MarkDirty,
    /// Tells the loop of the charger.
    TellCharging,
    /// Ends.
    Quit,
    /// Nothing of its own.
    Ignore,
}

pub open spec fn is_device_change(message: WindowMessage) -> bool {
    message.number == WM_DEVICECHANGE && (message.parameter == DBT_DEVICEARRIVAL
        || message.parameter == DBT_DEVICEREMOVECOMPLETE || message.parameter
        == DBT_DEVNODES_CHANGED)
}

pub open spec fn changes_setting(message: WindowMessage, setting: Guid) -> bool {
    message.number == WM_POWERBROADCAST && message.parameter == PBT_POWERSETTINGCHANGE
        && message.setting is Some && same_guid(message.setting->0, setting)
}

pub open spec fn window_action_spec(
    message: WindowMessage,
    power_source: Guid,
    display_state: Guid,
) -> WindowAction {
    if message.number == WM_NCCREATE {
        WindowAction::Attach
    } else if message.number == WM_DESTROY {
        WindowAction::Quit
    } else if changes_setting(message, power_source) {
        WindowAction::TellCharging
    } else if is_device_change(message) || changes_setting(message, display_state) {
        WindowAction::MarkDirty
    } else {
        WindowAction::Ignore
    }
}

/// What the monitor's window does with a message. `power_source` and
/// `display_state` are the power settings that matter.
pub fn window_action(message: &WindowMessage, power_source: &Guid, display_state: &Guid) -> (action:
    WindowAction)
    ensures
        action == window_action_spec(*message, *power_source, *display_state),
{
    if message.number == WM_NCCREATE {
        return WindowAction::Attach;
    }
    if message.number == WM_DESTROY {
        return WindowAction::Quit;
    }
    if message.number == WM_DEVICECHANGE && (message.parameter == DBT_DEVICEARRIVAL
        || message.parameter == DBT_DEVICEREMOVECOMPLETE || message.parameter
        == DBT_DEVNODES_CHANGED) {
        return WindowAction::MarkDirty;
    }
    if message.number == WM_POWERBROADCAST && message.parameter == PBT_POWERSETTINGCHANGE {
        if let Some(setting) = &message.setting {
            if guid_equals(setting, power_source) {
                return WindowAction::TellCharging;
            }
            if guid_equals(setting, display_state) {
                return WindowAction::MarkDirty;
            }
        }
    }
    WindowAction::Ignore
}

// ── Linux ────────────────────────────────────────────────────────────

/// What the Linux loop does after it has polled its socket.
#[derive(Debug, Clone, Copy, PartialEq, Eq, Structural)]
pub enum PollOutcome {
    /// The poll failed: waits a little.
    Pause,
    /// Nothing has come: polls again.
    Again,
    /// Reads the events.
    Read,
}

pub fn poll_outcome(result: i32) -> (outcome: PollOutcome)
    ensures
        outcome == PollOutcome::Pause <==> result < 0,
        outcome == PollOutcome::Again <==> result == 0,
        outcome == PollOutcome::Read <==> result > 0,
{
    if result < 0 {
        PollOutcome::Pause
    } else if result == 0 {
        PollOutcome::Again
    } else {
        PollOutcome::Read
    }
}

/// The subsystems whose events may be those of a port.
pub open spec fn is_port_subsystem(name: Seq<char>) -> bool {
    name == "power_supply"@ || name == "block"@ || name == "drm"@ || name == "net"@ || name
        == "usb"@
}

pub fn concerns_ports(subsystem: &str) -> (concerns: bool)
    ensures
        concerns == is_port_subsystem(subsystem@),
{
    same_text(subsystem, "power_supply") || same_text(subsystem, "block") || same_text(
        subsystem,
        "drm",
    ) || same_text(subsystem, "net") || same_text(subsystem, "usb")
}

/// Whether the Linux loop looks at the ports: one of the events, by their
/// subsystems, may be that of a port.
pub fn look_after_events(subsystems: &Vec<String>) -> (look: bool)
    ensures
        look == exists|i: int|
            0 <= i < subsystems@.len() && is_port_subsystem((#[trigger] subsystems@[i])@),
{
    let mut i: usize = 0;
    while i < subsystems.len()
        invariant
            i <= subsystems@.len(),
            forall|j: int| 0 <= j < i ==> !is_port_subsystem((#[trigger] subsystems@[j])@),
        decreases subsystems.len() - i,
    {
        if concerns_ports(subsystems[i].as_str()) {
            return true;
        }
        i += 1;
    }
    false
}

// ── macOS ────────────────────────────────────────────────────────────

/// The greatest number of ticks between two looks.
pub const TICKS_PER_LOOK: u32 = 4;

/// How many ticks of the macOS loop have passed since it last looked.
#[derive(Debug, Clone, Copy, PartialEq, Eq, Structural)]
pub struct Ticks {
    pub since_look: u32,
}

/// One tick: the count after it, and whether to look at the ports. That is done
/// after an event, and else on every fourth tick, since not every change brings an
/// event.
pub open spec fn tick_step(ticks: Ticks, event: bool) -> (Ticks, bool) {
    if event || ticks.since_look + 1 >= TICKS_PER_LOOK {
        (Ticks { since_look: 0 }, true)
    } else {
        (Ticks { since_look: (ticks.since_look + 1) as u32 }, false)
    }
}

impl Ticks {
    pub open spec fn wf(self) -> bool {
        self.since_look < TICKS_PER_LOOK
    }

    pub fn new() -> (ticks: Ticks)
        ensures
            ticks.wf(),
            ticks.since_look == 0,
    {
        Ticks { since_look: 0 }
    }

    /// Counts a tick; says whether to look at the ports.
    pub fn tick(&mut self, event: bool) -> (look: bool)
        requires
            old(self).wf(),
        ensures
            final(self).wf(),
            (*final(self), look) == tick_step(*old(self), event),
    {
        self.since_look = self.since_look + 1;
        if event || self.since_look >= TICKS_PER_LOOK {
            self.since_look = 0;
            return true;
        }
        false
    }
}

/// However few events come, four ticks never pass without a look.
pub proof fn law_a_look_within_four_ticks(
    ticks: Ticks,
    first: bool,
    second: bool,
    third: bool,
    fourth: bool,
)
    requires
        ticks.wf(),
    ensures
        ({
            let (one, look_one) = tick_step(ticks, first);
            let (two, look_two) = tick_step(one, second);
            let (three, look_three) = tick_step(two, third);
            let (_, look_four) = tick_step(three, fourth);
            look_one || look_two || look_three || look_four
        }),
{
}

/// What is told is reported just where it is not known already: an event that tells
/// something else than the last word on its port is reported, as it was told, and
/// one that tells the same is not.
pub proof fn law_what_is_told_and_new_is_reported(
    known: PortSnapshot,
    told: Seq<PortEvent>,
    event: PortEvent,
)
    ensures
        last_word(known, news(known, told), event.kind) != Some(event.connected) ==> news(
            known,
            told.push(event),
        ) == news(known, told).push(event),
        last_word(known, news(known, told), event.kind) == Some(event.connected) ==> news(
            known,
            told.push(event),
        ) == news(known, told),
        news(known, Seq::empty()) == Seq::<PortEvent>::empty(),
{
    assert(told.push(event).drop_last() == told);
    assert(told.push(event).last() == event);
    lemma_after_all(known, news(known, told), event.kind);
}

/// A look is the last word: after it the monitor knows just what it saw, and every
/// port whose state was known and turned out to be the other is reported once more.
pub proof fn law_a_look_settles_the_matter(known: PortSnapshot, turn: Turn, kind: PortKind)
    requires
        turn.look is Some,
        turn.look->0.state(kind) is Some,
    ensures
        turn_step(known, turn).0 == turn.look->0,
        last_word(known, news(known, turn.told), kind) is Some ==> last_word(
            known,
            turn_step(known, turn).1,
            kind,
        ) == turn.look->0.state(kind),
        last_word(known, news(known, turn.told), kind) is None ==> last_report(
            turn_step(known, turn).1,
            kind,
        ) is None,
{
    let fresh = news(known, turn.told);
    let seen = known_when_told(known, turn);
    let found = changes(seen, turn.look->0);
    lemma_after_all(known, fresh, kind);
    lemma_after_all(seen, found, kind);
    law_changes_bring_up_to_date(seen, turn.look->0, kind);
    lemma_last_report_of_both(fresh, found, kind);
}

/// Without a look a turn reports the news and nothing else; with nothing told it
/// reports what the look shows and nothing else.
pub proof fn law_turns_with_one_source(known: PortSnapshot, turn: Turn)
    ensures
        turn.look is None ==> turn_step(known, turn).1 == news(known, turn.told),
        turn.told.len() == 0 && turn.look is None ==> turn_step(known, turn) == (
            known,
            Seq::<PortEvent>::empty(),
        ),
        turn.told.len() == 0 && turn.look is Some ==> turn_step(known, turn).1 == changes(
            known,
            turn.look->0,
        ),
{
    if turn.told.len() == 0 {
        assert(news(known, turn.told) == Seq::<PortEvent>::empty());
        assert(known.after_all(Seq::<PortEvent>::empty()) == known);
        if turn.look is Some {
            assert(Seq::<PortEvent>::empty() + changes(known, turn.look->0) =~= changes(
                known,
                turn.look->0,
            ));
        }
    }
}

/// The messages that make the window act: its creation and its end; a device that
/// came, went or changed; a change of the power source or of the display's state.
/// Every other message does nothing.
pub proof fn law_what_the_window_acts_on(
    message: WindowMessage,
    power_source: Guid,
    display_state: Guid,
)
    ensures
        ({
            let action = window_action_spec(message, power_source, display_state);
            let setting_changed = message.number == 0x0218 && message.parameter == 0x8013
                && message.setting is Some;
            let device_changed = message.number == 0x0219 && (message.parameter == 0x8000
                || message.parameter == 0x8004 || message.parameter == 7);
            let power = setting_changed && same_guid(message.setting->0, power_source);
            let display = setting_changed && same_guid(message.setting->0, display_state);
            &&& action == WindowAction::Attach <==> message.number == 0x0081
            &&& action == WindowAction::Quit <==> message.number == 0x0002
            &&& action == WindowAction::TellCharging <==> power
            &&& action == WindowAction::MarkDirty <==> device_changed || display && !power
        }),
{
}

/// The subsystems whose events are looked into are these five and no others.
pub proof fn law_subsystems_of_ports(name: Seq<char>)
    ensures
        is_port_subsystem(name) <==> seq![
            "power_supply"@,
            "block"@,
            "drm"@,
            "net"@,
            "usb"@,
        ].contains(name),
{
    let five = seq!["power_supply"@, "block"@, "drm"@, "net"@, "usb"@];
    assert(five[0] == "power_supply"@ && five[1] == "block"@ && five[2] == "drm"@ && five[3]
        == "net"@ && five[4] == "usb"@);
}

/// An event is looked into at once; without events it is every fourth tick that
/// looks, and no earlier one. The count starts anew with each look.
pub proof fn law_ticks_look_on_events_and_every_fourth(ticks: Ticks, event: bool)
    requires
        ticks.wf(),
    ensures
        ({
            let (after, look) = tick_step(ticks, event);
            &&& look <==> event || ticks.since_look == 3
            &&& look ==> after.since_look == 0
            &&& !look ==> after.since_look == ticks.since_look + 1
        }),
{
}

/// The numbers of the window's messages and of what comes with them, and the ticks
/// between two looks.
pub proof fn law_messages_in_numbers()
    ensures
        WM_DESTROY == 2,
        WM_NCCREATE == 0x81,
        WM_POWERBROADCAST == 0x218,
        WM_DEVICECHANGE == 0x219,
        DBT_DEVNODES_CHANGED == 7,
        DBT_DEVICEARRIVAL == 0x8000,
        DBT_DEVICEREMOVECOMPLETE == 0x8004,
        PBT_POWERSETTINGCHANGE == 0x8013,
        TICKS_PER_LOOK == 4,
{
}

/// After a turn without a look the monitor knows of every port the last word on it,
/// and with a look what the look showed, also where it showed nothing.
pub proof fn law_what_is_known_after_a_turn(known: PortSnapshot, turn: Turn, kind: PortKind)
    ensures
        turn.look is None ==> turn_step(known, turn).0.state(kind) == last_word(
            known,
            news(known, turn.told),
            kind,
        ),
        turn.look matches Some(current) ==> turn_step(known, turn).0.state(kind) == current.state(
            kind,
        ),
{
    lemma_after_all(known, news(known, turn.told), kind);
}

} // verus!
