use meme_machine::probe_linux::{
    is_probably_thunderbolt_or_dock, poll_charging, poll_charging_linux_sysfs, poll_ethernet,
    poll_external_display, poll_thunderbolt_dock, poll_usb_storage, BatteryState, NetworkInterface,
    PowerSupply, UsbDevice,
};
use meme_machine::json::parse_json;
use meme_machine::probe_macos::{
    command_output, interface_active, macos_has_external_display, poll_charging_macos,
    poll_ethernet_macos, poll_external_display_macos, poll_thunderbolt_dock_macos,
    poll_usb_storage_macos, wired_devices,
};
use meme_machine::probe_windows::{
    guid_equals, poll_charging_windows, poll_ethernet_windows, poll_external_display_windows,
    poll_thunderbolt_dock_windows, poll_usb_storage_windows, registered, wide_string,
    windows_charging_state_from_power_setting, Guid, PowerStatus, WindowsDiskDrive,
    WindowsNetworkAdapter, WindowsPnPDevice,
};

fn some(text: &str) -> Option<String> {
    Some(text.to_string())
}

// Linux

fn supply(supply_type: Option<&str>, online: Option<&str>) -> PowerSupply {
    PowerSupply {
        supply_type: supply_type.map(|text| text.to_string()),
        online: online.map(|text| text.to_string()),
    }
}

#[test]
fn mains_decide_on_linux() {
    assert_eq!(poll_charging_linux_sysfs(None), None);
    assert_eq!(poll_charging_linux_sysfs(Some(&vec![])), None);
    let supplies = vec![
        supply(Some("Battery\n"), Some("1\n")),
        supply(Some("Mains\n"), None),
        supply(None, Some("1")),
        supply(Some(" Mains\n"), Some("0\n")),
        supply(Some("Mains\n"), Some("1\n")),
    ];
    assert_eq!(poll_charging_linux_sysfs(Some(&supplies)), Some(false));
    assert_eq!(poll_charging_linux_sysfs(Some(&vec![supply(Some("Mains"), Some("1\n"))])), Some(true));
}

#[test]
fn batteries_decide_where_there_are_no_mains() {
    let discharging = vec![None, Some(BatteryState::Discharging)];
    let full = vec![Some(BatteryState::Discharging), Some(BatteryState::Full)];
    assert_eq!(poll_charging(Some(false), Some(&full)), Some(false));
    assert_eq!(poll_charging(None, Some(&full)), Some(true));
    assert_eq!(poll_charging(None, Some(&discharging)), Some(false));
    assert_eq!(poll_charging(None, Some(&vec![None])), None);
    assert_eq!(poll_charging(None, Some(&vec![])), None);
    assert_eq!(poll_charging(None, None), None);
}

#[test]
fn storage_and_displays_on_linux() {
    assert_eq!(poll_usb_storage(None), None);
    assert_eq!(poll_usb_storage(Some(&vec![Some(9), None])), Some(false));
    assert_eq!(poll_usb_storage(Some(&vec![None, Some(8)])), Some(true));
    assert_eq!(poll_external_display(None), None);
    assert_eq!(poll_external_display(Some(&vec![true])), Some(false));
    assert_eq!(poll_external_display(Some(&vec![true, false])), Some(true));
}

fn interface(name: &str, has_address: bool) -> NetworkInterface {
    NetworkInterface { name: name.to_string(), has_address }
}

#[test]
fn wired_interfaces_on_linux() {
    for (name, wired) in [
        ("eth0", true),
        ("ENP3S0", true),
        ("wlan0", false),
        ("en-airport", false),
        ("lo", false),
        ("vlan7", true),
        ("open", false),
        ("usb-ethernet", true),
    ] {
        assert_eq!(poll_ethernet(&vec![interface(name, true)]), Some(wired), "{}", name);
        assert_eq!(poll_ethernet(&vec![interface(name, false)]), Some(false));
    }
    assert_eq!(poll_ethernet(&vec![]), Some(false));
}

fn usb(product: Option<&str>, manufacturer: Option<&str>) -> UsbDevice {
    UsbDevice {
        has_descriptor: true,
        opened: true,
        languages: Some(1),
        product: product.map(|text| text.to_string()),
        manufacturer: manufacturer.map(|text| text.to_string()),
    }
}

#[test]
fn docks_on_linux() {
    assert!(is_probably_thunderbolt_or_dock(&usb(Some("TS4 Thunderbolt Hub"), None)));
    assert!(is_probably_thunderbolt_or_dock(&usb(None, Some("CalDigit, Inc."))));
    assert!(!is_probably_thunderbolt_or_dock(&usb(Some("Hub"), Some("Lenovo"))));
    assert!(!is_probably_thunderbolt_or_dock(&UsbDevice { languages: Some(0), ..usb(Some("Dock"), None) }));
    assert!(!is_probably_thunderbolt_or_dock(&UsbDevice { languages: None, ..usb(Some("Dock"), None) }));
    assert!(!is_probably_thunderbolt_or_dock(&UsbDevice { opened: false, ..usb(Some("Dock"), None) }));
    assert!(!is_probably_thunderbolt_or_dock(&UsbDevice { has_descriptor: false, ..usb(Some("Dock"), None) }));
    assert_eq!(poll_thunderbolt_dock(None), None);
    assert_eq!(poll_thunderbolt_dock(Some(&vec![usb(Some("Mouse"), None)])), Some(false));
    assert_eq!(poll_thunderbolt_dock(Some(&vec![usb(Some("Mouse"), None), usb(Some("ANKER"), None)])), Some(true));
}

// macOS

#[test]
fn command_output_is_text() {
    assert_eq!(command_output(true, b"abc \xc3\xa4".to_vec()), some("abc ä"));
    assert_eq!(command_output(true, vec![0xff, 0x41]), None);
    assert_eq!(command_output(false, b"abc".to_vec()), None);
}

#[test]
fn charging_on_macos() {
    assert_eq!(poll_charging_macos(Some("Now drawing from 'AC Power'")), Some(true));
    assert_eq!(poll_charging_macos(Some("Now drawing from 'Battery Power'")), Some(false));
    assert_eq!(poll_charging_macos(Some("?")), None);
    assert_eq!(poll_charging_macos(None), None);
}

#[test]
fn storage_and_docks_on_macos() {
    assert_eq!(poll_usb_storage_macos(Some("USB Mass Storage Device")), Some(true));
    assert_eq!(poll_usb_storage_macos(Some("Keyboard")), Some(false));
    assert_eq!(poll_usb_storage_macos(None), None);
    assert_eq!(poll_thunderbolt_dock_macos(Some("Device Name: TS4")), Some(true));
    assert_eq!(poll_thunderbolt_dock_macos(Some("No hardware")), Some(false));
    assert_eq!(poll_thunderbolt_dock_macos(None), None);
}

const PORTS: &str = "\nHardware Port: Ethernet Adapter (en4)\nDevice: en4\nEthernet Address: x\n\n\
Hardware Port: Wi-Fi\nDevice: en0\n\nHardware Port: Thunderbolt Bridge\n  Device: bridge0 \n";

#[test]
fn wired_devices_on_macos() {
    assert_eq!(wired_devices(PORTS), vec!["en4".to_string(), "bridge0".to_string()]);
    assert_eq!(wired_devices("Device: en9"), Vec::<String>::new());
    assert!(interface_active("status: ACTIVE\n inet 10.0.0.1"));
    assert!(!interface_active("status: active"));
    let up = some("inet 10.0.0.1\nstatus: active");
    assert_eq!(poll_ethernet_macos(Some(PORTS), &vec![None, up.clone()]), Some(true));
    assert_eq!(poll_ethernet_macos(Some(PORTS), &vec![None, some("status: inactive")]), Some(false));
    assert_eq!(poll_ethernet_macos(Some(""), &vec![]), Some(false));
    assert_eq!(poll_ethernet_macos(None, &vec![]), None);
}

#[test]
fn displays_on_macos() {
    let external = r#"{"SPDisplaysDataType":[{"_name":"kHW","spdisplays_ndrvs":[{"_name":"LG","spdisplays_resolution":"1"}],"spdisplays_builtin":"spdisplays_YES"}]}"#;
    let builtin = r#"{"SPDisplaysDataType":[{"_name":"Color LCD","spdisplays_resolution":"1","spdisplays_builtin":"spdisplays_Yes"}]}"#;
    let unnamed = r#"[{"_name":"Graphics/Displays","spdisplays_resolution":1},{"_name":"","spdisplays_vendor-id":2},{"spdisplays_display_type":null}]"#;
    assert_eq!(poll_external_display_macos(Some(external)), Some(true));
    assert_eq!(poll_external_display_macos(Some(builtin)), Some(false));
    assert_eq!(poll_external_display_macos(Some(unnamed)), Some(false));
    assert_eq!(poll_external_display_macos(Some("{")), None);
    assert_eq!(poll_external_display_macos(None), None);
    assert!(macos_has_external_display(&parse_json(external).unwrap()));
    assert!(!macos_has_external_display(&parse_json("3").unwrap()));
    assert!(parse_json("nonsense").is_none());
}

// Windows

#[test]
fn charging_on_windows() {
    let status = |ac_line_status: u8, battery_flag: u8| Some(PowerStatus { ac_line_status, battery_flag });
    assert_eq!(poll_charging_windows(None), None);
    assert_eq!(poll_charging_windows(status(0, 8)), Some(false));
    assert_eq!(poll_charging_windows(status(1, 0)), Some(true));
    assert_eq!(poll_charging_windows(status(255, 9)), Some(true));
    assert_eq!(poll_charging_windows(status(255, 1)), Some(false));
    assert_eq!(windows_charging_state_from_power_setting(0, 0), None);
    assert_eq!(windows_charging_state_from_power_setting(4, 0), Some(true));
    assert_eq!(windows_charging_state_from_power_setting(4, 1), Some(false));
    assert_eq!(windows_charging_state_from_power_setting(4, 2), Some(false));
    assert_eq!(windows_charging_state_from_power_setting(4, 3), None);
}

#[test]
fn storage_and_displays_on_windows() {
    let drive = |interface: Option<&str>, pnp: Option<&str>, model: Option<&str>| WindowsDiskDrive {
        interface_type: interface.map(|text| text.to_string()),
        pnp_device_id: pnp.map(|text| text.to_string()),
        model: model.map(|text| text.to_string()),
    };
    assert_eq!(poll_usb_storage_windows(None), None);
    assert_eq!(poll_usb_storage_windows(Some(&vec![drive(Some("SCSI"), Some("USB"), None)])), Some(false));
    assert_eq!(poll_usb_storage_windows(Some(&vec![drive(Some("USB"), None, None)])), Some(true));
    assert_eq!(poll_usb_storage_windows(Some(&vec![drive(None, Some("USBSTOR\\X"), None)])), Some(true));
    assert_eq!(poll_usb_storage_windows(Some(&vec![drive(None, None, Some("Sandisk usb"))])), Some(true));
    assert_eq!(poll_external_display_windows(None), None);
    assert_eq!(poll_external_display_windows(Some(&vec![Some(true), None, Some(false)])), Some(false));
    assert_eq!(poll_external_display_windows(Some(&vec![Some(true), Some(true)])), Some(true));
}

fn adapter(name: &str) -> WindowsNetworkAdapter {
    WindowsNetworkAdapter {
        net_enabled: Some(true),
        physical_adapter: None,
        name: some(name),
        net_connection_id: None,
        adapter_type: None,
    }
}

#[test]
fn adapters_and_docks_on_windows() {
    assert_eq!(poll_ethernet_windows(None), None);
    assert_eq!(poll_ethernet_windows(Some(&vec![adapter("Realtek Ethernet")])), Some(true));
    assert_eq!(
        poll_ethernet_windows(Some(&vec![
            WindowsNetworkAdapter { net_enabled: None, ..adapter("Ethernet") },
            WindowsNetworkAdapter { physical_adapter: Some(false), ..adapter("Ethernet") },
            WindowsNetworkAdapter { adapter_type: some("Wireless"), ..adapter("Ethernet") },
            adapter("Bluetooth"),
        ])),
        Some(false)
    );
    let device = |name: &str| WindowsPnPDevice { name: some(name), caption: None, pnp_device_id: None };
    assert_eq!(poll_thunderbolt_dock_windows(None), None);
    assert_eq!(poll_thunderbolt_dock_windows(Some(&vec![device("Dell touchpad")])), Some(false));
    assert_eq!(poll_thunderbolt_dock_windows(Some(&vec![device("Dell Dock")])), Some(true));
}

#[test]
fn forms_of_windows() {
    let guid = Guid { data1: 1, data2: 2, data3: 3, data4: [1, 2, 3, 4, 5, 6, 7, 8] };
    assert!(guid_equals(&guid, &guid));
    assert!(!guid_equals(&guid, &Guid { data4: [1, 2, 3, 4, 5, 6, 7, 9], ..guid }));
    assert!(!guid_equals(&guid, &Guid { data2: 0, ..guid }));
    for text in ["", "MemeMachinePortMonitor", "ä\u{1f600}\u{10ffff}"] {
        let expected: Vec<u16> = text.encode_utf16().chain(Some(0)).collect();
        assert_eq!(wide_string(text), expected);
    }
    assert_eq!(registered(&vec![0, 5, 0, -1]), vec![5, -1]);
}
