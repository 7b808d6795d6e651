//! What Linux tells of the ports: power supplies, batteries, USB devices,
//! displays and network interfaces.

use vstd::prelude::*;

use crate::text::{
    begins_with, chars_of, contains, lower, lower_or_empty, lowered, occurs, same_text, starts_with,
    text_of, text_or_empty, trim, trimmed,
};
use crate::vocabulary::{mentions_dock, mentions_wireless, names_dock, names_wireless};

verus! {

// ── Power ────────────────────────────────────────────────────────────

/// One power supply: the contents of its `type` and `online` attributes, as far
/// as they can be read.
pub struct PowerSupply {
    pub supply_type: Option<String>,
    pub online: Option<String>,
}

/// What a power supply says of the charger: something only if it is the mains
/// and its state can be read.
pub open spec fn mains_state(supply: PowerSupply) -> Option<bool> {
    match (supply.supply_type, supply.online) {
        (Some(supply_type), Some(online)) => if trimmed(supply_type@) == "Mains"@ {
            Some(trimmed(online@) == "1"@)
        } else {
            None
        },
        _ => None,
    }
}

/// What the first power supply that says something of the charger says.
pub open spec fn first_mains(supplies: Seq<PowerSupply>) -> Option<bool>
    decreases supplies.len(),
{
    if supplies.len() == 0 {
        None
    } else if mains_state(supplies[0]) is Some {
        mains_state(supplies[0])
    } else {
        first_mains(supplies.drop_first())
    }
}

fn trimmed_is(text: &str, expected: &str) -> (same: bool)
    ensures
        same == (trimmed(text@) == expected@),
{
    same_text(text_of(&trim(&chars_of(text))).as_str(), expected)
}

fn read_mains(supply: &PowerSupply) -> (state: Option<bool>)
    ensures
        state == mains_state(*supply),
{
    match &supply.supply_type {
        Some(supply_type) => {
            if trimmed_is(supply_type.as_str(), "Mains") {
                match &supply.online {
                    Some(online) => Some(trimmed_is(online.as_str(), "1")),
                    None => None,
                }
            } else {
                None
            }
        },
        None => None,
    }
}

/// Whether the charger is plugged in, by the power supplies (none where they
/// cannot be listed).
pub fn poll_charging_linux_sysfs(supplies: Option<&Vec<PowerSupply>>) -> (charging: Option<bool>)
    ensures
        charging == match supplies {
            Some(supplies) => first_mains(supplies@),
            None => None,
        },
{
    let listed = match supplies {
        Some(supplies) => supplies,
        None => {
            return None;
        },
    };
    let mut i: usize = 0;
    assert(listed@.skip(0) == listed@);
    while i < listed.len()
        invariant
            i <= listed@.len(),
            supplies == Some(listed),
            first_mains(listed@) == first_mains(listed@.skip(i as int)),
        decreases listed.len() - i,
    {
        let state = read_mains(&listed[i]);
        assert(listed@.skip(i as int)[0] == listed@[i as int]);
        if state.is_some() {
            return state;
        }
        assert(listed@.skip(i as int).drop_first() == listed@.skip(i + 1));
        i += 1;
    }
    None
}

/// The state of a battery.
#[derive(Debug, Clone, Copy, PartialEq, Eq, Structural)]
pub enum BatteryState {
    Unknown,
    Charging,
    Discharging,
    Empty,
    Full,
}

pub open spec fn is_powered(battery: Option<BatteryState>) -> bool {
    battery == Some(BatteryState::Charging) || battery == Some(BatteryState::Full)
}

/// What the batteries say of the charger: it is plugged in if one of them
/// charges or is full; nothing is known where none can be read.
pub open spec fn battery_verdict(batteries: Seq<Option<BatteryState>>) -> Option<bool> {
    if exists|i: int| 0 <= i < batteries.len() && #[trigger] batteries[i] is Some {
        Some(exists|i: int| 0 <= i < batteries.len() && is_powered(#[trigger] batteries[i]))
    } else {
        None
    }
}

fn charging_from_batteries(batteries: &Vec<Option<BatteryState>>) -> (charging: Option<bool>)
    ensures
        charging == battery_verdict(batteries@),
{
    let mut saw_battery = false;
    let mut i: usize = 0;
    while i < batteries.len()
        invariant
            i <= batteries@.len(),
            saw_battery == exists|j: int| 0 <= j < i && #[trigger] batteries@[j] is Some,
            forall|j: int| 0 <= j < i ==> !is_powered(#[trigger] batteries@[j]),
        decreases batteries.len() - i,
    {
        match batteries[i] {
            Some(state) => {
                saw_battery = true;
                match state {
                    BatteryState::Charging | BatteryState::Full => {
                        assert(is_powered(batteries@[i as int]));
                        return Some(true);
                    },
                    _ => {},
                }
            },
            None => {},
        }
        i += 1;
    }
    if saw_battery {
        Some(false)
    } else {
        None
    }
}

/// Whether the charger is plugged in. The mains state decides where it is known;
/// otherwise the batteries do (`None` where they cannot be listed, a `None`
/// among them where one cannot be read).
pub fn poll_charging(mains: Option<bool>, batteries: Option<&Vec<Option<BatteryState>>>) -> (charging:
    Option<bool>)
    ensures
        mains is Some ==> charging == mains,
        mains is None ==> charging == match batteries {
            Some(batteries) => battery_verdict(batteries@),
            None => None,
        },
{
    if mains.is_some() {
        return mains;
    }
    match batteries {
        Some(batteries) => charging_from_batteries(batteries),
        None => None,
    }
}

// ── USB storage ──────────────────────────────────────────────────────

/// The USB class of mass storage.
pub const MASS_STORAGE_CLASS: u8 = 0x08;

/// Whether a storage device is attached, by the class codes of the USB devices
/// (`None` where they cannot be listed, a `None` among them where a device
/// cannot be read).
pub fn poll_usb_storage(class_codes: Option<&Vec<Option<u8>>>) -> (present: Option<bool>)
    ensures
        present == match class_codes {
            Some(codes) => Some(codes@.contains(Some(MASS_STORAGE_CLASS))),
            None => None,
        },
{
    let codes = match class_codes {
        Some(codes) => codes,
        None => {
            return None;
        },
    };
    let mut i: usize = 0;
    while i < codes.len()
        invariant
            i <= codes@.len(),
            class_codes == Some(codes),
            forall|j: int| 0 <= j < i ==> codes@[j] != Some(MASS_STORAGE_CLASS),
        decreases codes.len() - i,
    {
        if let Some(code) = codes[i] {
            if code == MASS_STORAGE_CLASS {
                assert(codes@[i as int] == Some(MASS_STORAGE_CLASS));
                return Some(true);
            }
        }
        i += 1;
    }
    Some(false)
}

// ── Displays ─────────────────────────────────────────────────────────

/// Whether an external display is attached: one of the displays is not built in
/// (`None` where they cannot be listed).
pub fn poll_external_display(builtin: Option<&Vec<bool>>) -> (external: Option<bool>)
    ensures
        external == match builtin {
            Some(displays) => Some(displays@.contains(false)),
            None => None,
        },
{
    let displays = match builtin {
        Some(displays) => displays,
        None => {
            return None;
        },
    };
    let mut i: usize = 0;
    while i < displays.len()
        invariant
            i <= displays@.len(),
            builtin == Some(displays),
            forall|j: int| 0 <= j < i ==> displays@[j],
        decreases displays.len() - i,
    {
        if !displays[i] {
            assert(displays@[i as int] == false);
            return Some(true);
        }
        i += 1;
    }
    Some(false)
}

// ── Ethernet ─────────────────────────────────────────────────────────

/// A network interface, and whether it has an address.
pub struct NetworkInterface {
    pub name: String,
    pub has_address: bool,
}

/// The (lower case) name is that of a wired interface.
pub open spec fn is_wired_name(name: Seq<char>) -> bool {
    &&& starts_with(name, "eth"@) || starts_with(name, "en"@) || occurs(name, "ethernet"@)
        || occurs(name, "lan"@)
    &&& !mentions_wireless(name)
    &&& !occurs(name, "airport"@)
}

pub open spec fn is_wired_up(interface: NetworkInterface) -> bool {
    is_wired_name(lowered(interface.name@)) && interface.has_address
}

fn wired_up(interface: &NetworkInterface) -> (up: bool)
    ensures
        up == is_wired_up(*interface),
{
    let name = lower(interface.name.as_str());
    let wired_hint = begins_with(&name, "eth") || begins_with(&name, "en") || contains(
        &name,
        "ethernet",
    ) || contains(&name, "lan");
    let wireless_hint = names_wireless(&name) || contains(&name, "airport");
    wired_hint && !wireless_hint && interface.has_address
}

/// Whether a wired interface has an address.
pub fn poll_ethernet(interfaces: &Vec<NetworkInterface>) -> (connected: Option<bool>)
    ensures
        connected == Some(
            exists|i: int| 0 <= i < interfaces@.len() && is_wired_up(#[trigger] interfaces@[i]),
        ),
{
    let mut i: usize = 0;
    while i < interfaces.len()
        invariant
            i <= interfaces@.len(),
            forall|j: int| 0 <= j < i ==> !is_wired_up(#[trigger] interfaces@[j]),
        decreases interfaces.len() - i,
    {
        if wired_up(&interfaces[i]) {
            return Some(true);
        }
        i += 1;
    }
    Some(false)
}

// ── Docks ────────────────────────────────────────────────────────────

/// What could be read of a USB device: whether it has a descriptor and could be
/// opened, how many languages it offers, and its strings in the first of them.
pub struct UsbDevice {
    pub has_descriptor: bool,
    pub opened: bool,
    pub languages: Option<usize>,
    pub product: Option<String>,
    pub manufacturer: Option<String>,
}

/// The device offers strings, and one of them mentions a dock. The hub class is
/// no sign of a dock: nearly every laptop has a hub inside.
pub open spec fn is_dock(device: UsbDevice) -> bool {
    &&& device.has_descriptor
    &&& device.opened
    &&& device.languages matches Some(languages) && languages > 0
    &&& mentions_dock(lowered(text_or_empty(device.product))) || mentions_dock(
        lowered(text_or_empty(device.manufacturer)),
    )
}

/// Whether a USB device is a dock, as far as its strings tell.
pub fn is_probably_thunderbolt_or_dock(device: &UsbDevice) -> (dock: bool)
    ensures
        dock == is_dock(*device),
{
    if !device.has_descriptor || !device.opened {
        return false;
    }
    match device.languages {
        Some(languages) => {
            if languages == 0 {
                return false;
            }
        },
        None => {
            return false;
        },
    }
    names_dock(&lower_or_empty(&device.product)) || names_dock(
        &lower_or_empty(&device.manufacturer),
    )
}

pub open spec fn some_dock(devices: Seq<UsbDevice>) -> bool {
    exists|i: int| 0 <= i < devices.len() && is_dock(#[trigger] devices[i])
}

/// Whether a dock is attached (`None` where USB devices cannot be listed).
pub fn poll_thunderbolt_dock(devices: Option<&Vec<UsbDevice>>) -> (present: Option<bool>)
    ensures
        present == match devices {
            Some(devices) => Some(some_dock(devices@)),
            None => None,
        },
{
    let listed = match devices {
        Some(devices) => devices,
        None => {
            return None;
        },
    };
    let mut i: usize = 0;
    while i < listed.len()
        invariant
            i <= listed@.len(),
            devices == Some(listed),
            forall|j: int| 0 <= j < i ==> !is_dock(#[trigger] listed@[j]),
        decreases listed.len() - i,
    {
        if is_probably_thunderbolt_or_dock(&listed[i]) {
            assert(some_dock(listed@));
            return Some(true);
        }
        i += 1;
    }
    Some(false)
}

// ── Laws ─────────────────────────────────────────────────────────────

/// A power supply speaks for the charger just where it is the mains and its state
/// can be read; it says "plugged in" for a one and for nothing else.
pub proof fn law_what_the_mains_say(supply: PowerSupply)
    ensures
        supply.supply_type is None || supply.online is None ==> mains_state(supply) is None,
        supply.supply_type is Some && supply.online is Some ==> {
            let mains = trimmed(supply.supply_type->0@) == "Mains"@;
            let one = trimmed(supply.online->0@) == "1"@;
            &&& !mains ==> mains_state(supply) is None
            &&& mains && one ==> mains_state(supply) == Some(true)
            &&& mains && !one ==> mains_state(supply) == Some(false)
        },
{
}

/// The first power supply that speaks for the charger has the word.
pub proof fn law_the_first_mains_have_the_word(supplies: Seq<PowerSupply>, at: int)
    requires
        0 <= at <= supplies.len(),
        forall|i: int| 0 <= i < at ==> mains_state(#[trigger] supplies[i]) is None,
        at < supplies.len() ==> mains_state(supplies[at]) is Some,
    ensures
        at < supplies.len() ==> first_mains(supplies) == mains_state(supplies[at]),
        at == supplies.len() ==> first_mains(supplies) is None,
    decreases supplies.len(),
{
    if supplies.len() > 0 && at > 0 {
        let rest = supplies.drop_first();
        assert(mains_state(supplies[0]) is None);
        assert forall|i: int| 0 <= i < at - 1 implies mains_state(#[trigger] rest[i]) is None by {
            assert(rest[i] == supplies[i + 1]);
        }
        if at < supplies.len() {
            assert(rest[at - 1] == supplies[at]);
        }
        law_the_first_mains_have_the_word(rest, at - 1);
    }
}

/// The batteries say that the charger is plugged in where one of them charges or is
/// full, that it is not where all that can be read do neither, and nothing where
/// none can be read.
pub proof fn law_what_the_batteries_say(batteries: Seq<Option<BatteryState>>, i: int)
    ensures
        0 <= i < batteries.len() && (batteries[i] == Some(BatteryState::Charging) || batteries[i]
            == Some(BatteryState::Full)) ==> battery_verdict(batteries) == Some(true),
        0 <= i < batteries.len() && batteries[i] is Some && (forall|j: int|
            0 <= j < batteries.len() ==> #[trigger] batteries[j] != Some(BatteryState::Charging)
                && batteries[j] != Some(BatteryState::Full)) ==> battery_verdict(batteries) == Some(
            false,
        ),
        (forall|j: int| 0 <= j < batteries.len() ==> #[trigger] batteries[j] is None)
            ==> battery_verdict(batteries) is None,
{
    if 0 <= i < batteries.len() {
        assert(is_powered(batteries[i]) <==> batteries[i] == Some(BatteryState::Charging)
            || batteries[i] == Some(BatteryState::Full));
    }
}

/// An interface is up and wired just where it has an address, its name in lower case
/// begins or reads like that of a wired one, and nothing in it hints at a wireless
/// one.
pub proof fn law_which_interfaces_are_wired(interface: NetworkInterface)
    ensures
        is_wired_up(interface) <==> {
            let name = lowered(interface.name@);
            &&& interface.has_address
            &&& starts_with(name, "eth"@) || starts_with(name, "en"@) || occurs(name, "ethernet"@)
                || occurs(name, "lan"@)
            &&& !occurs(name, "wifi"@) && !occurs(name, "wi-fi"@) && !occurs(name, "wlan"@)
                && !occurs(name, "airport"@) && !occurs(name, "wireless"@)
        },
{
}

/// A USB device is a dock just where it could be read and its product or its
/// manufacturer, in lower case, mentions one.
pub proof fn law_which_devices_are_docks(device: UsbDevice)
    ensures
        is_dock(device) ==> device.has_descriptor && device.opened && device.languages is Some
            && device.languages->0 > 0,
        device.has_descriptor && device.opened && device.languages is Some && device.languages->0
            > 0 ==> (is_dock(device) <==> mentions_dock(lowered(text_or_empty(device.product)))
            || mentions_dock(lowered(text_or_empty(device.manufacturer)))),
{
}

/// One dock among the devices is enough.
pub proof fn law_one_dock_is_enough(devices: Seq<UsbDevice>, i: int)
    ensures
        0 <= i < devices.len() && is_dock(devices[i]) ==> some_dock(devices),
        (forall|j: int| 0 <= j < devices.len() ==> !is_dock(#[trigger] devices[j])) ==> !some_dock(
            devices,
        ),
{
}

/// The USB class of mass storage is eight.
pub proof fn law_the_class_in_numbers()
    ensures
        MASS_STORAGE_CLASS == 8,
{
}

} // verus!
