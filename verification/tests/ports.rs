use meme_machine::ports::{
    emit_changes, find_rule, platform_label, port_monitor_mode_label, probe_port_capabilities,
    repair_rules, snapshot_for_kind, update_rule_bundle, Platform, PortEvent, PortKind, PortRule,
    PortSnapshot,
};

fn rule(kind: PortKind, bundle: &str) -> PortRule {
    PortRule { kind, bundle: bundle.to_string(), on_connect: true, on_disconnect: false }
}

const UNKNOWN: PortSnapshot = PortSnapshot {
    charging: None,
    usb_storage: None,
    external_display: None,
    ethernet: None,
    thunderbolt_dock: None,
};

#[test]
fn kinds_and_labels() {
    let labels: Vec<&str> = PortKind::all().iter().map(|kind| kind.label()).collect();
    assert_eq!(
        labels,
        vec![
            "Charging / power",
            "USB storage / pendrive",
            "HDMI / external display",
            "LAN / ethernet",
            "Thunderbolt / dock",
        ]
    );
    assert_eq!(PortKind::all()[0], PortKind::Charging);
    assert_eq!(PortKind::all()[4], PortKind::ThunderboltDock);
}

#[test]
fn default_rules() {
    for kind in PortKind::all() {
        let rule = PortRule::default_for(kind);
        assert_eq!(rule.kind, kind);
        assert_eq!(rule.bundle, "default");
        assert!(!rule.on_connect && !rule.on_disconnect);
    }
}

#[test]
fn repair_keeps_the_first_rule_and_fills_gaps() {
    let mut rules = vec![
        rule(PortKind::Ethernet, "first"),
        rule(PortKind::Charging, "plug"),
        rule(PortKind::Ethernet, "second"),
    ];
    repair_rules(&mut rules);
    assert_eq!(rules.len(), 5);
    for (kind, rule) in PortKind::all().iter().zip(rules.iter()) {
        assert_eq!(*kind, rule.kind);
    }
    assert_eq!(rules[0].bundle, "plug");
    assert_eq!(rules[3].bundle, "first");
    assert_eq!(rules[1].bundle, "default");
    assert_eq!(find_rule(&rules, PortKind::Ethernet), Some(3));
    let before: Vec<String> = rules.iter().map(|rule| rule.bundle.clone()).collect();
    repair_rules(&mut rules);
    let after: Vec<String> = rules.iter().map(|rule| rule.bundle.clone()).collect();
    assert_eq!(before, after);
}

#[test]
fn renaming_a_bundle_renames_it_in_every_rule() {
    let mut rules = vec![rule(PortKind::Charging, "a"), rule(PortKind::Ethernet, "b"), rule(PortKind::UsbStorage, "a")];
    update_rule_bundle(&mut rules, "a", "c");
    assert_eq!(rules[0].bundle, "c");
    assert_eq!(rules[1].bundle, "b");
    assert_eq!(rules[2].bundle, "c");
    update_rule_bundle(&mut rules, "c", "a");
    assert_eq!(rules[0].bundle, "a");
    assert_eq!(find_rule(&rules, PortKind::ThunderboltDock), None);
}

#[test]
fn changes_between_known_states_are_reported_in_order() {
    let previous = PortSnapshot {
        charging: Some(true),
        usb_storage: None,
        external_display: Some(false),
        ethernet: Some(true),
        thunderbolt_dock: Some(false),
    };
    let current = PortSnapshot {
        charging: Some(false),
        usb_storage: Some(true),
        external_display: Some(true),
        ethernet: None,
        thunderbolt_dock: Some(false),
    };
    assert_eq!(
        emit_changes(previous, current),
        vec![
            PortEvent { kind: PortKind::Charging, connected: false },
            PortEvent { kind: PortKind::ExternalDisplay, connected: true },
        ]
    );
    assert_eq!(emit_changes(previous, previous), vec![]);
    let mut follower = previous;
    for event in emit_changes(previous, current) {
        follower.record(event);
    }
    assert_eq!(snapshot_for_kind(follower, PortKind::Charging), Some(false));
    assert_eq!(snapshot_for_kind(follower, PortKind::Ethernet), Some(true));
}

#[test]
fn capabilities_tell_what_is_known() {
    let snapshot = PortSnapshot { charging: Some(true), ethernet: Some(false), ..UNKNOWN };
    let capabilities = probe_port_capabilities(snapshot);
    assert_eq!(capabilities.len(), 5);
    assert!(capabilities[0].supported && capabilities[0].connected);
    assert!(!capabilities[1].supported && !capabilities[1].connected);
    assert!(capabilities[3].supported && !capabilities[3].connected);
    assert_eq!(capabilities[3].label, PortKind::Ethernet.label());
}

#[test]
fn labels_of_platforms() {
    assert_eq!(platform_label(Platform::Windows), "Windows");
    assert_eq!(platform_label(Platform::MacOs), "macOS");
    assert_eq!(platform_label(Platform::Linux), "Linux");
    assert_eq!(platform_label(Platform::Other), "Unknown");
    assert_eq!(port_monitor_mode_label(Platform::Windows, true), "Snapshot polling");
    assert_eq!(port_monitor_mode_label(Platform::Linux, false), "Snapshot polling");
    assert_eq!(
        port_monitor_mode_label(Platform::Linux, true),
        "Event-driven (udev) with snapshot fallback"
    );
    assert_eq!(
        port_monitor_mode_label(Platform::MacOs, false),
        "Event-driven (IOKit) with snapshot fallback"
    );
}
