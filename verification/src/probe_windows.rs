//! What Windows tells of the ports: power status, drives, monitors, adapters and
//! plug-and-play devices; and the forms in which it wants and gives things.

use vstd::prelude::*;

use crate::lists::lemma_filter_none;
use crate::text::{chars_of, contains, lower_or_empty, lowered, occurs, text_or_empty};
use crate::vocabulary::{mentions_dock, mentions_wireless, names_dock, names_wireless};

verus! {

// ── Power ────────────────────────────────────────────────────────────

/// The bit of the battery flags that is set while the battery charges.
pub const CHARGING_FLAG: u8 = 8;

/// The fields of the system power status that tell of the charger.
#[derive(Debug, Clone, Copy)]
pub struct PowerStatus {
    pub ac_line_status: u8,
    pub battery_flag: u8,
}

/// Whether the charger is plugged in. The line status decides where it is known
/// (0 off, 1 on), otherwise the battery's charging flag does.
pub fn poll_charging_windows(status: Option<PowerStatus>) -> (charging: Option<bool>)
    ensures
        charging == match status {
            Some(status) => Some(
                if status.ac_line_status <= 1 {
                    status.ac_line_status == 1
                } else {
                    status.battery_flag & CHARGING_FLAG != 0
                },
            ),
            None => None,
        },
{
    match status {
        Some(status) => match status.ac_line_status {
            0 => Some(false),
            1 => Some(true),
            _ => Some((status.battery_flag & CHARGING_FLAG) != 0),
        },
        None => None,
    }
}

/// The charger's state in a power source notification: its first byte says
/// whether the machine runs on the line (0) or on a battery (1, 2).
pub fn windows_charging_state_from_power_setting(data_length: u32, power_source: u8) -> (charging:
    Option<bool>)
    ensures
        charging == if data_length >= 1 && power_source == 0 {
            Some(true)
        } else if data_length >= 1 && power_source <= 2 {
            Some(false)
        } else {
            None
        },
{
    if data_length < 1 {
        return None;
    }
    match power_source {
        0 => Some(true),
        1 | 2 => Some(false),
        _ => None,
    }
}

// ── USB storage ──────────────────────────────────────────────────────

/// A disk drive as the management interface describes it.
pub struct WindowsDiskDrive {
    pub interface_type: Option<String>,
    pub pnp_device_id: Option<String>,
    pub model: Option<String>,
}

pub open spec fn is_usb_drive(drive: WindowsDiskDrive) -> bool {
    occurs(lowered(text_or_empty(drive.interface_type)), "usb"@) || occurs(
        lowered(text_or_empty(drive.pnp_device_id)),
        "usbstor"@,
    ) || occurs(lowered(text_or_empty(drive.model)), "usb"@)
}

pub open spec fn some_usb_drive(drives: Seq<WindowsDiskDrive>) -> bool {
    exists|i: int| 0 <= i < drives.len() && is_usb_drive(#[trigger] drives[i])
}

fn usb_drive(drive: &WindowsDiskDrive) -> (usb: bool)
    ensures
        usb == is_usb_drive(*drive),
{
    contains(&lower_or_empty(&drive.interface_type), "usb") || contains(
        &lower_or_empty(&drive.pnp_device_id),
        "usbstor",
    ) || contains(&lower_or_empty(&drive.model), "usb")
}

/// Whether a USB drive is attached (`None` where drives cannot be queried).
pub fn poll_usb_storage_windows(drives: Option<&Vec<WindowsDiskDrive>>) -> (present: Option<bool>)
    ensures
        present == match drives {
            Some(drives) => Some(some_usb_drive(drives@)),
            None => None,
        },
{
    let listed = match drives {
        Some(drives) => drives,
        None => {
            return None;
        },
    };
    let mut i: usize = 0;
    while i < listed.len()
        invariant
            i <= listed@.len(),
            drives == Some(listed),
            forall|j: int| 0 <= j < i ==> !is_usb_drive(#[trigger] listed@[j]),
        decreases listed.len() - i,
    {
        if usb_drive(&listed[i]) {
            assert(some_usb_drive(listed@));
            return Some(true);
        }
        i += 1;
    }
    Some(false)
}

// ── Displays ─────────────────────────────────────────────────────────

pub open spec fn active_monitors(monitors: Seq<Option<bool>>) -> nat {
    monitors.filter(|active: Option<bool>| active == Some(true)).len()
}

/// Whether an external display is attached: more than one monitor is active
/// (`None` where monitors cannot be queried, a `None` among them where one does
/// not say).
pub fn poll_external_display_windows(monitors: Option<&Vec<Option<bool>>>) -> (external: Option<
    bool,
>)
    ensures
        external == match monitors {
            Some(monitors) => Some(active_monitors(monitors@) > 1),
            None => None,
        },
{
    let listed = match monitors {
        Some(monitors) => monitors,
        None => {
            return None;
        },
    };
    let ghost active = |active: Option<bool>| active == Some(true);
    let mut count: usize = 0;
    let mut i: usize = 0;
    while i < listed.len()
        invariant
            i <= listed@.len(),
            count <= i,
            monitors == Some(listed),
            active == (|active: Option<bool>| active == Some(true)),
            count == listed@.take(i as int).filter(active).len(),
        decreases listed.len() - i,
    {
        proof {
            reveal(Seq::filter);
            assert(listed@.take(i + 1).drop_last() == listed@.take(i as int));
            assert(listed@.take(i + 1).last() == listed@[i as int]);
        }
        if listed[i].unwrap_or(false) {
            count += 1;
        }
        i += 1;
    }
    assert(listed@.take(listed@.len() as int) == listed@);
    Some(count > 1)
}

// ── Ethernet ─────────────────────────────────────────────────────────

/// A network adapter as the management interface describes it.
pub struct WindowsNetworkAdapter {
    pub net_enabled: Option<bool>,
    pub physical_adapter: Option<bool>,
    pub name: Option<String>,
    pub net_connection_id: Option<String>,
    pub adapter_type: Option<String>,
}

/// The (lower case) text mentions a wired network.
pub open spec fn mentions_wired(text: Seq<char>) -> bool {
    occurs(text, "ethernet"@) || occurs(text, "lan"@) || occurs(text, "thunderbolt"@) || occurs(
        text,
        "dock"@,
    )
}

/// The adapter is enabled, is not known to be virtual, and its descriptions
/// mention a wired network and no wireless one.
pub open spec fn is_wired_adapter(adapter: WindowsNetworkAdapter) -> bool {
    let name = lowered(text_or_empty(adapter.name));
    let connection = lowered(text_or_empty(adapter.net_connection_id));
    let adapter_type = lowered(text_or_empty(adapter.adapter_type));
    &&& adapter.net_enabled == Some(true)
    &&& adapter.physical_adapter != Some(false)
    &&& mentions_wired(name) || mentions_wired(connection) || mentions_wired(adapter_type)
    &&& !mentions_wireless(name)
    &&& !mentions_wireless(connection)
    &&& !mentions_wireless(adapter_type)
}

pub open spec fn some_wired_adapter(adapters: Seq<WindowsNetworkAdapter>) -> bool {
    exists|i: int| 0 <= i < adapters.len() && is_wired_adapter(#[trigger] adapters[i])
}

fn names_wired(text: &Vec<char>) -> (wired: bool)
    ensures
        wired == mentions_wired(text@),
{
    contains(text, "ethernet") || contains(text, "lan") || contains(text, "thunderbolt") || contains(
        text,
        "dock",
    )
}

fn wired_adapter(adapter: &WindowsNetworkAdapter) -> (wired: bool)
    ensures
        wired == is_wired_adapter(*adapter),
{
    let enabled = match adapter.net_enabled {
        Some(enabled) => enabled,
        None => false,
    };
    let physical = match adapter.physical_adapter {
        Some(physical) => physical,
        None => true,
    };
    if !enabled || !physical {
        return false;
    }
    let name = lower_or_empty(&adapter.name);
    let connection = lower_or_empty(&adapter.net_connection_id);
    let adapter_type = lower_or_empty(&adapter.adapter_type);
    let wired_hint = names_wired(&name) || names_wired(&connection) || names_wired(&adapter_type);
    let wireless_hint = names_wireless(&name) || names_wireless(&connection) || names_wireless(
        &adapter_type,
    );
    wired_hint && !wireless_hint
}

/// Whether a wired adapter is enabled (`None` where adapters cannot be queried).
pub fn poll_ethernet_windows(adapters: Option<&Vec<WindowsNetworkAdapter>>) -> (connected: Option<
    bool,
>)
    ensures
        connected == match adapters {
            Some(adapters) => Some(some_wired_adapter(adapters@)),
            None => None,
        },
{
    let listed = match adapters {
        Some(adapters) => adapters,
        None => {
            return None;
        },
    };
    let mut i: usize = 0;
    while i < listed.len()
        invariant
            i <= listed@.len(),
            adapters == Some(listed),
            forall|j: int| 0 <= j < i ==> !is_wired_adapter(#[trigger] listed@[j]),
        decreases listed.len() - i,
    {
        if wired_adapter(&listed[i]) {
            assert(some_wired_adapter(listed@));
            return Some(true);
        }
        i += 1;
    }
    Some(false)
}

// ── Docks ────────────────────────────────────────────────────────────

/// A plug-and-play device as the management interface describes it.
pub struct WindowsPnPDevice {
    pub name: Option<String>,
    pub caption: Option<String>,
    pub pnp_device_id: Option<String>,
}

pub open spec fn is_dock_device(device: WindowsPnPDevice) -> bool {
    mentions_dock(lowered(text_or_empty(device.name))) || mentions_dock(
        lowered(text_or_empty(device.caption)),
    ) || mentions_dock(lowered(text_or_empty(device.pnp_device_id)))
}

pub open spec fn some_dock_device(devices: Seq<WindowsPnPDevice>) -> bool {
    exists|i: int| 0 <= i < devices.len() && is_dock_device(#[trigger] devices[i])
}

fn dock_device(device: &WindowsPnPDevice) -> (dock: bool)
    ensures
        dock == is_dock_device(*device),
{
    names_dock(&lower_or_empty(&device.name)) || names_dock(&lower_or_empty(&device.caption))
        || names_dock(&lower_or_empty(&device.pnp_device_id))
}

/// Whether a dock is attached (`None` where devices cannot be queried).
pub fn poll_thunderbolt_dock_windows(devices: Option<&Vec<WindowsPnPDevice>>) -> (present: Option<
    bool,
>)
    ensures
        present == match devices {
            Some(devices) => Some(some_dock_device(devices@)),
            None => None,
        },
{
    let listed = match devices {
        Some(devices) => devices,
        None => {
            return None;
        },
    };
    let mut i: usize = 0;
    while i < listed.len()
        invariant
            i <= listed@.len(),
            devices == Some(listed),
            forall|j: int| 0 <= j < i ==> !is_dock_device(#[trigger] listed@[j]),
        decreases listed.len() - i,
    {
        if dock_device(&listed[i]) {
            assert(some_dock_device(listed@));
            return Some(true);
        }
        i += 1;
    }
    Some(false)
}

// ── Forms ────────────────────────────────────────────────────────────

/// A globally unique identifier, by its four fields.
#[derive(Debug, Clone, Copy)]
pub struct Guid {
    pub data1: u32,
    pub data2: u16,
    pub data3: u16,
    pub data4: [u8; 8],
}

pub open spec fn same_guid(a: Guid, b: Guid) -> bool {
    a.data1 == b.data1 && a.data2 == b.data2 && a.data3 == b.data3 && a.data4@ == b.data4@
}

pub fn guid_equals(a: &Guid, b: &Guid) -> (same: bool)
    ensures
        same == same_guid(*a, *b),
{
    if a.data1 != b.data1 || a.data2 != b.data2 || a.data3 != b.data3 {
        return false;
    }
    let mut i: usize = 0;
    while i < 8
        invariant
            i <= 8,
            forall|j: int| 0 <= j < i ==> a.data4@[j] == b.data4@[j],
        decreases 8 - i,
    {
        if a.data4[i] != b.data4[i] {
            return false;
        }
        i += 1;
    }
    assert(a.data4@ == b.data4@);
    true
}

/// The UTF-16 code units of a character: itself, or beyond the basic plane a
/// high and a low surrogate.
pub open spec fn utf16_units(c: char) -> Seq<u16> {
    let code = c as u32;
    if code < 0x1_0000 {
        seq![code as u16]
    } else {
        seq![
            (0xD800 + (code - 0x1_0000) / 0x400) as u16,
            (0xDC00 + (code - 0x1_0000) % 0x400) as u16,
        ]
    }
}

pub open spec fn utf16(text: Seq<char>) -> Seq<u16>
    decreases text.len(),
{
    if text.len() == 0 {
        Seq::empty()
    } else {
        utf16(text.drop_last()) + utf16_units(text.last())
    }
}

/// The text in UTF-16, closed by a zero.
pub fn wide_string(value: &str) -> (wide: Vec<u16>)
    ensures
        wide@ == utf16(value@).push(0),
{
    let chars = chars_of(value);
    let mut wide: Vec<u16> = Vec::new();
    let mut i: usize = 0;
    while i < chars.len()
        invariant
            i <= chars@.len(),
            wide@ == utf16(chars@.take(i as int)),
        decreases chars.len() - i,
    {
        let c = chars[i];
        let code: u32 = c as u32;
        let ghost before = wide@;
        proof {
            assert(chars@.take(i + 1).drop_last() == chars@.take(i as int));
            assert(chars@.take(i + 1).last() == c);
        }
        if code < 0x1_0000 {
            wide.push(code as u16);
        } else {
            let offset: u32 = code - 0x1_0000;
            wide.push((0xD800 + offset / 0x400) as u16);
            wide.push((0xDC00 + offset % 0x400) as u16);
        }
        assert(wide@ == before + utf16_units(c));
        i += 1;
    }
    assert(chars@.take(chars@.len() as int) == chars@);
    wide.push(0);
    wide
}

/// The handles among the registration results that stand for a registration; a
/// failed one gives zero.
pub fn registered(handles: &Vec<isize>) -> (kept: Vec<isize>)
    ensures
        kept@ == handles@.filter(|handle: isize| handle != 0),
{
    let ghost valid = |handle: isize| handle != 0;
    let mut kept: Vec<isize> = Vec::new();
    let mut i: usize = 0;
    assert(handles@.take(0).filter(valid) == Seq::<isize>::empty()) by {
        reveal(Seq::filter);
    }
    while i < handles.len()
        invariant
            i <= handles@.len(),
            valid == (|handle: isize| handle != 0),
            kept@ == handles@.take(i as int).filter(valid),
        decreases handles.len() - i,
    {
        proof {
            reveal(Seq::filter);
            assert(handles@.take(i + 1).drop_last() == handles@.take(i as int));
            assert(handles@.take(i + 1).last() == handles@[i as int]);
        }
        if handles[i] != 0 {
            kept.push(handles[i]);
        }
        i += 1;
    }
    assert(handles@.take(handles@.len() as int) == handles@);
    kept
}

// ── Laws ─────────────────────────────────────────────────────────────

/// A drive is one at USB just where its interface or its model mentions USB or its
/// identifier the class of USB storage, in whatever case; one of them is enough.
pub proof fn law_which_drives_are_at_usb(drives: Seq<WindowsDiskDrive>, i: int)
    requires
        0 <= i < drives.len(),
    ensures
        ({
            let drive = drives[i];
            let interface = lowered(text_or_empty(drive.interface_type));
            let identifier = lowered(text_or_empty(drive.pnp_device_id));
            let model = lowered(text_or_empty(drive.model));
            &&& occurs(interface, "usb"@) || occurs(identifier, "usbstor"@) || occurs(model, "usb"@)
                ==> some_usb_drive(drives)
            &&& !occurs(interface, "usb"@) && !occurs(identifier, "usbstor"@) && !occurs(
                model,
                "usb"@,
            ) ==> !is_usb_drive(drive)
        }),
        (forall|j: int| 0 <= j < drives.len() ==> !is_usb_drive(#[trigger] drives[j]))
            ==> !some_usb_drive(drives),
{
    if is_usb_drive(drives[i]) {
        assert(some_usb_drive(drives));
    }
}

/// More than one active monitor: there are two of them.
pub proof fn law_two_monitors_are_needed(monitors: Seq<Option<bool>>, i: int, j: int)
    ensures
        0 <= i < j < monitors.len() && monitors[i] == Some(true) && monitors[j] == Some(true)
            ==> active_monitors(monitors) > 1,
        (forall|k: int| 0 <= k < monitors.len() && k != i ==> #[trigger] monitors[k] != Some(true))
            ==> active_monitors(monitors) <= 1,
    decreases monitors.len(),
{
    let active = |active: Option<bool>| active == Some(true);
    reveal(Seq::filter);
    if monitors.len() > 0 {
        let rest = monitors.drop_last();
        let last = monitors.len() - 1;
        assert(monitors.filter(active) == if active(monitors[last]) {
            rest.filter(active).push(monitors[last])
        } else {
            rest.filter(active)
        });
        if 0 <= i < j < monitors.len() && monitors[i] == Some(true) && monitors[j] == Some(true) {
            if j < last {
                assert(rest[i] == monitors[i] && rest[j] == monitors[j]);
                law_two_monitors_are_needed(rest, i, j);
            } else {
                assert(rest[i] == monitors[i]);
                rest.lemma_filter_contains(active, i);
            }
        }
        if forall|k: int|
            0 <= k < monitors.len() && k != i ==> #[trigger] monitors[k] != Some(true) {
            assert forall|k: int| 0 <= k < rest.len() && k != i implies #[trigger] rest[k] != Some(
                true,
            ) by {
                assert(rest[k] == monitors[k]);
            }
            law_two_monitors_are_needed(rest, i, j);
            if i == last {
                assert forall|k: int| 0 <= k < rest.len() implies !active(#[trigger] rest[k]) by {
                    assert(rest[k] == monitors[k]);
                }
                lemma_filter_none(rest, active);
            } else {
                assert(monitors[last] != Some(true));
            }
        }
    }
}

/// An adapter is a wired one just where it is enabled and not known to be virtual, a
/// wired word occurs in one of its three texts, and a wireless word in none.
pub proof fn law_which_adapters_are_wired(adapter: WindowsNetworkAdapter)
    ensures
        ({
            let name = lowered(text_or_empty(adapter.name));
            let connection = lowered(text_or_empty(adapter.net_connection_id));
            let adapter_type = lowered(text_or_empty(adapter.adapter_type));
            let usable = adapter.net_enabled == Some(true) && adapter.physical_adapter != Some(
                false,
            );
            let wireless = mentions_wireless(name) || mentions_wireless(connection)
                || mentions_wireless(adapter_type);
            let says = |word: Seq<char>|
                occurs(name, word) || occurs(connection, word) || occurs(adapter_type, word);
            &&& !usable || wireless ==> !is_wired_adapter(adapter)
            &&& usable && !wireless ==> (is_wired_adapter(adapter) <==> says("ethernet"@) || says(
                "lan"@,
            ) || says("thunderbolt"@) || says("dock"@))
        }),
{
}

/// One wired adapter is enough.
pub proof fn law_one_adapter_is_enough(adapters: Seq<WindowsNetworkAdapter>, i: int)
    ensures
        0 <= i < adapters.len() && is_wired_adapter(adapters[i]) ==> some_wired_adapter(adapters),
        (forall|j: int| 0 <= j < adapters.len() ==> !is_wired_adapter(#[trigger] adapters[j]))
            ==> !some_wired_adapter(adapters),
{
}

/// A device is a dock where any of its three texts mentions one, in whatever case;
/// one of them is enough.
pub proof fn law_which_devices_are_docks(devices: Seq<WindowsPnPDevice>, i: int)
    requires
        0 <= i < devices.len(),
    ensures
        ({
            let device = devices[i];
            let name = mentions_dock(lowered(text_or_empty(device.name)));
            let caption = mentions_dock(lowered(text_or_empty(device.caption)));
            let identifier = mentions_dock(lowered(text_or_empty(device.pnp_device_id)));
            &&& is_dock_device(device) <==> !(!name && !caption && !identifier)
            &&& name || caption || identifier ==> some_dock_device(devices)
        }),
        (forall|j: int| 0 <= j < devices.len() ==> !is_dock_device(#[trigger] devices[j]))
            ==> !some_dock_device(devices),
{
    if is_dock_device(devices[i]) {
        assert(some_dock_device(devices));
    }
}

/// Two identifiers are one just where all four fields are.
pub proof fn law_which_identifiers_are_one(a: Guid, b: Guid)
    ensures
        same_guid(a, b) ==> a.data1 == b.data1 && a.data2 == b.data2 && a.data3 == b.data3
            && forall|i: int| 0 <= i < 8 ==> a.data4@[i] == b.data4@[i],
        a.data1 != b.data1 || a.data2 != b.data2 || a.data3 != b.data3 ==> !same_guid(a, b),
        same_guid(a, a),
        same_guid(a, b) <==> same_guid(b, a),
        (exists|i: int| 0 <= i < 8 && a.data4@[i] != b.data4@[i]) ==> !same_guid(a, b),
        a.data1 == b.data1 && a.data2 == b.data2 && a.data3 == b.data3 && (forall|i: int|
            0 <= i < 8 ==> a.data4@[i] == b.data4@[i]) ==> same_guid(a, b),
{
    if forall|i: int| 0 <= i < 8 ==> a.data4@[i] == b.data4@[i] {
        assert(a.data4@ =~= b.data4@);
    }
}

/// The units of a character can be read back: one unit is the character itself; of
/// two, the first is a high surrogate, the second a low one, and together they give
/// the character.
pub proof fn law_characters_are_read_back(c: char)
    ensures
        c as u32 <= 0xffff ==> utf16_units(c).len() == 1 && utf16_units(c)[0] == c as u32,
        c as u32 > 0xffff ==> {
            &&& utf16_units(c).len() == 2
            &&& 0xd800 <= utf16_units(c)[0] < 0xdc00
            &&& 0xdc00 <= utf16_units(c)[1] < 0xe000
            &&& c as u32 == 0x1_0000 + (utf16_units(c)[0] - 0xd800) * 0x400 + (utf16_units(c)[1]
                - 0xdc00)
        },
{
}

/// The units of a text are those of its characters, one after the other.
pub proof fn law_texts_are_written_in_order(a: Seq<char>, b: Seq<char>)
    ensures
        utf16(a + b) == utf16(a) + utf16(b),
        utf16(Seq::empty()).len() == 0,
        forall|c: char| #[trigger] utf16(seq![c]) == utf16_units(c),
    decreases b.len(),
{
    assert forall|c: char| #[trigger] utf16(seq![c]) == utf16_units(c) by {
        assert(seq![c].drop_last() =~= Seq::<char>::empty());
        assert(utf16(seq![c].drop_last()) == Seq::<u16>::empty());
        assert(utf16(seq![c]) =~= utf16_units(c));
    }
    if b.len() == 0 {
        assert(a + b =~= a);
        assert(utf16(a) + utf16(b) =~= utf16(a));
    } else {
        law_texts_are_written_in_order(a, b.drop_last());
        assert((a + b).drop_last() =~= a + b.drop_last());
        assert((a + b).last() == b.last());
        assert(utf16(a) + (utf16(b.drop_last()) + utf16_units(b.last())) =~= utf16(a) + utf16(
            b.drop_last(),
        ) + utf16_units(b.last()));
    }
}

/// The charging flag is the fourth bit.
pub proof fn law_the_flag_in_numbers()
    ensures
        CHARGING_FLAG == 8,
{
}

} // verus!
