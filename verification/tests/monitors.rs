use meme_machine::monitor::{
    concerns_ports, look_after_events, look_after_wait, poll_outcome, wait_outcome, window_action,
    PollOutcome, PortMonitor, Ticks, WaitOutcome, WindowAction, WindowMessage,
};
use meme_machine::ports::{PortEvent, PortKind, PortSnapshot};
use meme_machine::probe_windows::Guid;

const UNKNOWN: PortSnapshot = PortSnapshot {
    charging: None,
    usb_storage: None,
    external_display: None,
    ethernet: None,
    thunderbolt_dock: None,
};

fn charging(connected: bool) -> PortEvent {
    PortEvent { kind: PortKind::Charging, connected }
}

#[test]
fn looks_report_changes() {
    let mut monitor = PortMonitor::new(UNKNOWN);
    let plugged = PortSnapshot { charging: Some(true), ..UNKNOWN };
    let unplugged = PortSnapshot { charging: Some(false), ..UNKNOWN };
    assert_eq!(monitor.observe(plugged), vec![]);
    assert_eq!(monitor.observe(unplugged), vec![charging(false)]);
    assert_eq!(monitor.observe(unplugged), vec![]);
    assert_eq!(monitor.observe(UNKNOWN), vec![]);
    assert_eq!(monitor.observe(plugged), vec![]);
    assert_eq!(monitor.previous, plugged);
}

#[test]
fn news_is_reported_once() {
    let mut monitor = PortMonitor::new(UNKNOWN);
    let told = vec![charging(true), charging(true), charging(false)];
    assert_eq!(monitor.notice(&told), vec![charging(true), charging(false)]);
    assert_eq!(monitor.previous.charging, Some(false));
    assert_eq!(monitor.notice(&vec![charging(false)]), vec![]);
}

#[test]
fn a_turn_tells_news_before_looks() {
    let mut monitor = PortMonitor::new(PortSnapshot {
        charging: Some(false),
        ethernet: Some(false),
        ..UNKNOWN
    });
    let now = PortSnapshot { charging: Some(true), ethernet: Some(true), ..UNKNOWN };
    let ethernet = PortEvent { kind: PortKind::Ethernet, connected: true };
    assert_eq!(monitor.turn(&vec![charging(true)], Some(now)), vec![charging(true), ethernet]);
    assert_eq!(monitor.turn(&vec![charging(true)], None), vec![]);
    assert_eq!(monitor.turn(&vec![charging(false)], None), vec![charging(false)]);
    assert_eq!(monitor.previous.charging, Some(false));
}

#[test]
fn reports_alternate_over_told_events_and_looks() {
    let look = |connected: bool| Some(PortSnapshot { charging: Some(connected), ..UNKNOWN });
    let mut monitor = PortMonitor::new(UNKNOWN);
    let mut reports = Vec::new();
    reports.extend(monitor.turn(&vec![], look(true)));
    reports.extend(monitor.turn(&vec![charging(true), charging(false), charging(false)], None));
    reports.extend(monitor.turn(&vec![charging(false)], look(true)));
    reports.extend(monitor.turn(&vec![charging(true)], look(true)));
    reports.extend(monitor.turn(&vec![charging(false), charging(true)], look(false)));
    assert_eq!(
        reports,
        vec![charging(false), charging(true), charging(false), charging(true), charging(false)]
    );
}

#[test]
fn a_port_that_was_lost_sight_of_may_be_reported_again() {
    let mut monitor = PortMonitor::new(PortSnapshot { charging: Some(false), ..UNKNOWN });
    assert_eq!(monitor.turn(&vec![charging(true)], Some(UNKNOWN)), vec![charging(true)]);
    assert_eq!(monitor.turn(&vec![charging(true)], None), vec![charging(true)]);
}

#[test]
fn waits_on_windows() {
    assert_eq!(wait_outcome(0), WaitOutcome::Stop);
    assert_eq!(wait_outcome(1), WaitOutcome::Dirty);
    assert_eq!(wait_outcome(2), WaitOutcome::Messages);
    assert_eq!(wait_outcome(258), WaitOutcome::Again);
    assert_eq!(wait_outcome(u32::MAX), WaitOutcome::Stop);
    assert!(look_after_wait(WaitOutcome::Dirty, false));
    assert!(look_after_wait(WaitOutcome::Messages, true));
    assert!(!look_after_wait(WaitOutcome::Messages, false));
    assert!(!look_after_wait(WaitOutcome::Again, true));
}

#[test]
fn messages_on_windows() {
    let power = Guid { data1: 1, data2: 2, data3: 3, data4: [0; 8] };
    let display = Guid { data1: 4, data2: 5, data3: 6, data4: [1; 8] };
    let other = Guid { data1: 7, ..power };
    let act = |number: u32, parameter: u32, setting: Option<Guid>| {
        window_action(&WindowMessage { number, parameter, setting }, &power, &display)
    };
    assert_eq!(act(0x81, 0, None), WindowAction::Attach);
    assert_eq!(act(0x02, 0, None), WindowAction::Quit);
    assert_eq!(act(0x219, 0x8000, None), WindowAction::MarkDirty);
    assert_eq!(act(0x219, 0x8004, None), WindowAction::MarkDirty);
    assert_eq!(act(0x219, 7, None), WindowAction::MarkDirty);
    assert_eq!(act(0x219, 8, None), WindowAction::Ignore);
    assert_eq!(act(0x218, 0x8013, Some(power)), WindowAction::TellCharging);
    assert_eq!(act(0x218, 0x8013, Some(display)), WindowAction::MarkDirty);
    assert_eq!(act(0x218, 0x8013, Some(other)), WindowAction::Ignore);
    assert_eq!(act(0x218, 0x8012, Some(power)), WindowAction::Ignore);
    assert_eq!(act(0x218, 0x8013, None), WindowAction::Ignore);
    assert_eq!(act(0x10, 0, None), WindowAction::Ignore);
}

#[test]
fn events_on_linux() {
    assert_eq!(poll_outcome(-1), PollOutcome::Pause);
    assert_eq!(poll_outcome(0), PollOutcome::Again);
    assert_eq!(poll_outcome(1), PollOutcome::Read);
    for name in ["power_supply", "block", "drm", "net", "usb"] {
        assert!(concerns_ports(name));
        assert!(look_after_events(&vec!["input".to_string(), name.to_string()]));
    }
    assert!(!concerns_ports(""));
    assert!(!look_after_events(&vec!["input".to_string(), "USB".to_string()]));
    assert!(!look_after_events(&vec![]));
}

#[test]
fn ticks_on_macos() {
    let mut ticks = Ticks::new();
    let looks: Vec<bool> = (0..8).map(|_| ticks.tick(false)).collect();
    assert_eq!(looks, vec![false, false, false, true, false, false, false, true]);
    assert!(!ticks.tick(false));
    assert!(ticks.tick(true));
    assert_eq!(ticks.since_look, 0);
}
