//! What the reports of macOS command line tools say of the ports.

use vstd::prelude::*;
use vstd::utf8::{encode_utf8, valid_utf8};

use crate::json::{json_document, parse_json, Json, JsonTree};
use crate::text::{
    after_prefix, ascii_lowered, chars_of, contains, equals_ignoring_case, lines, lines_of, lower, lowered, occurs,
    same_ignoring_case, same_text, starts_with, text_of, trim, trimmed, utf8_text,
};

verus! {

/// What a finished tool wrote: its output, if it succeeded and wrote UTF-8.
pub fn command_output(succeeded: bool, stdout: Vec<u8>) -> (output: Option<String>)
    ensures
        output is Some <==> succeeded && valid_utf8(stdout@),
        output matches Some(text) ==> encode_utf8(text@) == stdout@,
{
    if succeeded {
        utf8_text(stdout)
    } else {
        None
    }
}

// ── Power ────────────────────────────────────────────────────────────

pub open spec fn charging_reported(report: Seq<char>) -> Option<bool> {
    if occurs(lowered(report), "ac power"@) {
        Some(true)
    } else if occurs(lowered(report), "battery power"@) {
        Some(false)
    } else {
        None
    }
}

/// Reads the report of `pmset -g batt`.
pub fn poll_charging_macos(output: Option<&str>) -> (charging: Option<bool>)
    ensures
        charging == match output {
            Some(report) => charging_reported(report@),
            None => None,
        },
{
    match output {
        Some(report) => {
            let text = lower(report);
            if contains(&text, "ac power") {
                Some(true)
            } else if contains(&text, "battery power") {
                Some(false)
            } else {
                None
            }
        },
        None => None,
    }
}

// ── USB storage ──────────────────────────────────────────────────────

pub open spec fn storage_reported(report: Seq<char>) -> bool {
    let text = lowered(report);
    occurs(text, "mass storage"@) || occurs(text, "usb storage"@) || occurs(
        text,
        "usb attached scsi"@,
    ) || occurs(text, "pendrive"@)
}

/// Reads the report of `system_profiler SPUSBDataType`.
pub fn poll_usb_storage_macos(output: Option<&str>) -> (present: Option<bool>)
    ensures
        present == match output {
            Some(report) => Some(storage_reported(report@)),
            None => None,
        },
{
    match output {
        Some(report) => {
            let text = lower(report);
            Some(
                contains(&text, "mass storage") || contains(&text, "usb storage") || contains(
                    &text,
                    "usb attached scsi",
                ) || contains(&text, "pendrive"),
            )
        },
        None => None,
    }
}

// ── Thunderbolt ──────────────────────────────────────────────────────

pub open spec fn thunderbolt_reported(report: Seq<char>) -> bool {
    let text = lowered(report);
    occurs(text, "device name:"@) || occurs(text, "vendor name:"@) || occurs(text, "dock"@)
        || occurs(text, "hub"@)
}

/// Reads the report of `system_profiler SPThunderboltDataType`.
pub fn poll_thunderbolt_dock_macos(output: Option<&str>) -> (present: Option<bool>)
    ensures
        present == match output {
            Some(report) => Some(thunderbolt_reported(report@)),
            None => None,
        },
{
    match output {
        Some(report) => {
            let text = lower(report);
            Some(
                contains(&text, "device name:") || contains(&text, "vendor name:") || contains(
                    &text,
                    "dock",
                ) || contains(&text, "hub"),
            )
        },
        None => None,
    }
}

// ── Ethernet ─────────────────────────────────────────────────────────

/// Whether a hardware port of this (lower case) name takes a cable.
pub open spec fn is_wired_port(port: Seq<char>) -> bool {
    occurs(port, "ethernet"@) || occurs(port, "lan"@) || occurs(port, "thunderbolt"@)
}

/// The hardware port that the next lines belong to, once this line was read.
pub open spec fn port_after(line: Seq<char>, port: Seq<char>) -> Seq<char> {
    let text = trimmed(line);
    if starts_with(text, "Hardware Port: "@) {
        lowered(trimmed(text.skip("Hardware Port: "@.len() as int)))
    } else {
        port
    }
}

/// The device that this line names, where it names one of a wired port.
pub open spec fn device_in(line: Seq<char>, port: Seq<char>) -> Option<Seq<char>> {
    let text = trimmed(line);
    if !starts_with(text, "Hardware Port: "@) && starts_with(text, "Device: "@) && is_wired_port(
        port,
    ) {
        Some(trimmed(text.skip("Device: "@.len() as int)))
    } else {
        None
    }
}

pub open spec fn port_after_all(listing: Seq<Seq<char>>) -> Seq<char>
    decreases listing.len(),
{
    if listing.len() == 0 {
        Seq::empty()
    } else {
        port_after(listing.last(), port_after_all(listing.drop_last()))
    }
}

/// The devices of the wired ports in a listing, line by line.
pub open spec fn wired_in(listing: Seq<Seq<char>>) -> Seq<Seq<char>>
    decreases listing.len(),
{
    if listing.len() == 0 {
        Seq::empty()
    } else {
        let earlier = wired_in(listing.drop_last());
        match device_in(listing.last(), port_after_all(listing.drop_last())) {
            Some(device) => earlier.push(device),
            None => earlier,
        }
    }
}

/// The devices of the wired ports in the listing of
/// `networksetup -listallhardwareports`.
pub fn wired_devices(output: &str) -> (devices: Vec<String>)
    ensures
        devices@.map_values(|device: String| device@) == wired_in(lines(output@)),
{
    let ghost view = |device: String| device@;
    let ghost listing = lines(output@);
    let found = lines_of(&chars_of(output));
    assert(found@.map_values(|line: Vec<char>| line@) == listing);
    let mut devices: Vec<String> = Vec::new();
    let mut port: Vec<char> = Vec::new();
    let mut i: usize = 0;
    assert(devices@.map_values(view) == wired_in(listing.take(0)));
    while i < found.len()
        invariant
            i <= found@.len() == listing.len(),
            forall|j: int| 0 <= j < found@.len() ==> (#[trigger] found@[j])@ == listing[j],
            view == (|device: String| device@),
            port@ == port_after_all(listing.take(i as int)),
            devices@.map_values(view) == wired_in(listing.take(i as int)),
        decreases found.len() - i,
    {
        let line = trim(&found[i]);
        proof {
            assert(found@[i as int]@ == listing[i as int]);
            assert(listing.take(i + 1).drop_last() == listing.take(i as int));
            assert(listing.take(i + 1).last() == listing[i as int]);
        }
        if let Some(rest) = after_prefix(&line, "Hardware Port: ") {
            port = lower(text_of(&trim(&rest)).as_str());
        } else if let Some(rest) = after_prefix(&line, "Device: ") {
            if contains(&port, "ethernet") || contains(&port, "lan") || contains(
                &port,
                "thunderbolt",
            ) {
                let device = text_of(&trim(&rest));
                assert(devices@.push(device).map_values(view) == devices@.map_values(view).push(
                    device@,
                ));
                devices.push(device);
            }
        }
        i += 1;
    }
    assert(listing.take(listing.len() as int) == listing);
    devices
}

pub open spec fn interface_up(report: Seq<char>) -> bool {
    occurs(lowered(report), "status: active"@) && occurs(lowered(report), "inet "@)
}

/// Whether a report of `ifconfig` shows an active interface with an address.
pub fn interface_active(report: &str) -> (active: bool)
    ensures
        active == interface_up(report@),
{
    let text = lower(report);
    contains(&text, "status: active") && contains(&text, "inet ")
}

/// One of the reports (none where `ifconfig` failed) shows an active interface.
pub open spec fn some_interface_up(reports: Seq<Option<String>>) -> bool {
    exists|i: int|
        0 <= i < reports.len() && match #[trigger] reports[i] {
            Some(report) => interface_up(report@),
            None => false,
        }
}

/// Whether a wired interface is up, from the listing of hardware ports and the
/// reports of `ifconfig` on the devices that [`wired_devices`] finds in it.
pub fn poll_ethernet_macos(output: Option<&str>, reports: &Vec<Option<String>>) -> (up: Option<
    bool,
>)
    ensures
        up == match output {
            Some(listing) => Some(
                wired_in(lines(listing@)).len() > 0 && some_interface_up(reports@),
            ),
            None => None,
        },
{
    let devices = match output {
        Some(listing) => wired_devices(listing),
        None => {
            return None;
        },
    };
    assert(devices@.len() == devices@.map_values(|device: String| device@).len());
    if devices.len() == 0 {
        return Some(false);
    }
    let mut i: usize = 0;
    while i < reports.len()
        invariant
            i <= reports@.len(),
            output matches Some(listing) && wired_in(lines(listing@)).len() > 0,
            forall|j: int|
                0 <= j < i ==> match #[trigger] reports@[j] {
                    Some(report) => !interface_up(report@),
                    None => true,
                },
        decreases reports.len() - i,
    {
        if let Some(report) = &reports[i] {
            if interface_active(report.as_str()) {
                assert(some_interface_up(reports@));
                return Some(true);
            }
        }
        i += 1;
    }
    Some(false)
}

// ── Displays ─────────────────────────────────────────────────────────

/// The value that an object holds under a key.
pub open spec fn entry(entries: Seq<(Seq<char>, JsonTree)>, key: Seq<char>) -> Option<JsonTree>
    decreases entries.len(),
{
    if entries.len() == 0 {
        None
    } else if entries[0].0 == key {
        Some(entries[0].1)
    } else {
        entry(entries.drop_first(), key)
    }
}

/// The text that an object holds under a key, or the empty text.
pub open spec fn text_entry(entries: Seq<(Seq<char>, JsonTree)>, key: Seq<char>) -> Seq<char> {
    match entry(entries, key) {
        Some(JsonTree::Text(text)) => text,
        _ => Seq::empty(),
    }
}

/// The object describes a display that is named and not built in.
pub open spec fn describes_external_display(entries: Seq<(Seq<char>, JsonTree)>) -> bool {
    let name = text_entry(entries, "_name"@);
    &&& entry(entries, "spdisplays_resolution"@) is Some || entry(
        entries,
        "spdisplays_display_type"@,
    ) is Some || entry(entries, "spdisplays_vendor-id"@) is Some || entry(
        entries,
        "spdisplays_ndrvs"@,
    ) is Some
    &&& !same_ignoring_case(text_entry(entries, "spdisplays_builtin"@), "spdisplays_yes"@)
    &&& name.len() > 0
    &&& name != "Graphics/Displays"@
}

/// An external display is described here or anywhere below.
pub open spec fn shows_external_display(tree: JsonTree) -> bool
    decreases tree,
{
    match tree {
        JsonTree::Object(entries) => describes_external_display(entries) || exists|i: int|
            0 <= i < entries.len() && shows_external_display((#[trigger] entries[i]).1),
        JsonTree::Array(items) => exists|i: int|
            0 <= i < items.len() && shows_external_display(#[trigger] items[i]),
        _ => false,
    }
}

/// The entries of an object, as mathematics.
pub open spec fn entry_trees(entries: Seq<(String, Json)>) -> Seq<(Seq<char>, JsonTree)> {
    Seq::new(entries.len(), |i: int| (entries[i].0@, entries[i].1.tree()))
}

fn find_entry(entries: &Vec<(String, Json)>, key: &str) -> (found: Option<usize>)
    ensures
        match found {
            Some(at) => at < entries@.len() && entry(entry_trees(entries@), key@) == Some(
                entries@[at as int].1.tree(),
            ),
            None => entry(entry_trees(entries@), key@) is None,
        },
{
    let ghost trees = entry_trees(entries@);
    let mut at: usize = 0;
    assert(trees.skip(0) == trees);
    while at < entries.len()
        invariant
            at <= entries@.len(),
            trees == entry_trees(entries@),
            entry(trees, key@) == entry(trees.skip(at as int), key@),
        decreases entries.len() - at,
    {
        assert(trees.skip(at as int)[0] == trees[at as int]);
        if same_text(entries[at].0.as_str(), key) {
            return Some(at);
        }
        assert(trees.skip(at as int).drop_first() == trees.skip(at + 1));
        at += 1;
    }
    None
}

fn find_text(entries: &Vec<(String, Json)>, key: &str) -> (text: String)
    ensures
        text@ == text_entry(entry_trees(entries@), key@),
{
    match find_entry(entries, key) {
        Some(at) => match &entries[at].1 {
            Json::Text(text) => text.clone(),
            _ => String::new(),
        },
        None => String::new(),
    }
}

fn entries_describe_external_display(entries: &Vec<(String, Json)>) -> (external: bool)
    ensures
        external == describes_external_display(entry_trees(entries@)),
{
    let looks_like_display = find_entry(entries, "spdisplays_resolution").is_some() || find_entry(
        entries,
        "spdisplays_display_type",
    ).is_some() || find_entry(entries, "spdisplays_vendor-id").is_some() || find_entry(
        entries,
        "spdisplays_ndrvs",
    ).is_some();
    let builtin = find_text(entries, "spdisplays_builtin");
    let name = find_text(entries, "_name");
    looks_like_display && !equals_ignoring_case(builtin.as_str(), "spdisplays_yes")
        && !name.as_str().is_empty() && !same_text(name.as_str(), "Graphics/Displays")
}

/// Whether a display report describes an external display.
pub fn macos_has_external_display(value: &Json) -> (external: bool)
    ensures
        external == shows_external_display(value.tree()),
    decreases value,
{
    match value {
        Json::Object(entries) => {
            assert(entry_trees(entries@) == value.tree()->Object_0);
            if entries_describe_external_display(entries) {
                return true;
            }
            let ghost trees = value.tree()->Object_0;
            let mut i: usize = 0;
            while i < entries.len()
                invariant
                    i <= entries@.len(),
                    *value == Json::Object(*entries),
                    trees == entry_trees(entries@),
                    value.tree() == JsonTree::Object(trees),
                    forall|j: int| 0 <= j < i ==> !shows_external_display((#[trigger] trees[j]).1),
                decreases entries.len() - i,
            {
                assert(trees[i as int].1 == entries@[i as int].1.tree());
                assert(decreases_to!(*value => entries@[i as int].1));
                if macos_has_external_display(&entries[i].1) {
                    assert(shows_external_display(trees[i as int].1));
                    return true;
                }
                i += 1;
            }
            false
        },
        Json::Array(items) => {
            let ghost trees = value.tree()->Array_0;
            let mut i: usize = 0;
            while i < items.len()
                invariant
                    i <= items@.len() == trees.len(),
                    *value == Json::Array(*items),
                    trees == value.tree()->Array_0,
                    value.tree() == JsonTree::Array(trees),
                    forall|j: int| 0 <= j < i ==> !shows_external_display(#[trigger] trees[j]),
                decreases items.len() - i,
            {
                assert(trees[i as int] == items@[i as int].tree());
                assert(decreases_to!(*value => items@[i as int]));
                if macos_has_external_display(&items[i]) {
                    assert(shows_external_display(trees[i as int]));
                    return true;
                }
                i += 1;
            }
            false
        },
        Json::Text(_) => false,
        Json::Other => false,
    }
}

/// Reads the report of `system_profiler SPDisplaysDataType -json`.
pub fn poll_external_display_macos(output: Option<&str>) -> (external: Option<bool>)
    ensures
        external == match output {
            Some(report) => match json_document(report@) {
                Some(tree) => Some(shows_external_display(tree)),
                None => None,
            },
            None => None,
        },
{
    match output {
        Some(report) => match parse_json(report) {
            Some(value) => Some(macos_has_external_display(&value)),
            None => None,
        },
        None => None,
    }
}

// ── Laws ─────────────────────────────────────────────────────────────

/// The report on power names its source; the charger goes before the battery, and
/// without either nothing is known.
pub proof fn law_what_the_power_report_says(report: Seq<char>)
    ensures
        ({
            let charger = occurs(lowered(report), "ac power"@);
            let battery = occurs(lowered(report), "battery power"@);
            &&& charger ==> charging_reported(report) == Some(true)
            &&& !charger && battery ==> charging_reported(report) == Some(false)
            &&& !charger && !battery ==> charging_reported(report) is None
        }),
{
}

/// Each of four phrases is a sign of storage, and nothing else is.
pub proof fn law_signs_of_storage(report: Seq<char>)
    ensures
        occurs(lowered(report), "mass storage"@) ==> storage_reported(report),
        occurs(lowered(report), "usb storage"@) ==> storage_reported(report),
        occurs(lowered(report), "usb attached scsi"@) ==> storage_reported(report),
        occurs(lowered(report), "pendrive"@) ==> storage_reported(report),
        !occurs(lowered(report), "mass storage"@) && !occurs(lowered(report), "usb storage"@)
            && !occurs(lowered(report), "usb attached scsi"@) && !occurs(
            lowered(report),
            "pendrive"@,
        ) ==> !storage_reported(report),
{
}

/// Each of four phrases is a sign of something at Thunderbolt, and nothing else is.
pub proof fn law_signs_of_thunderbolt(report: Seq<char>)
    ensures
        occurs(lowered(report), "device name:"@) ==> thunderbolt_reported(report),
        occurs(lowered(report), "vendor name:"@) ==> thunderbolt_reported(report),
        occurs(lowered(report), "dock"@) ==> thunderbolt_reported(report),
        occurs(lowered(report), "hub"@) ==> thunderbolt_reported(report),
        !occurs(lowered(report), "device name:"@) && !occurs(lowered(report), "vendor name:"@)
            && !occurs(lowered(report), "dock"@) && !occurs(lowered(report), "hub"@)
            ==> !thunderbolt_reported(report),
{
}

/// An interface is up just where its report says both that it is active and that it
/// has an address.
pub proof fn law_when_an_interface_is_up(report: Seq<char>)
    ensures
        !occurs(lowered(report), "status: active"@) ==> !interface_up(report),
        !occurs(lowered(report), "inet "@) ==> !interface_up(report),
        occurs(lowered(report), "status: active"@) && occurs(lowered(report), "inet "@)
            ==> interface_up(report),
{
}

/// One interface that is up is enough; a report that failed counts for nothing.
pub proof fn law_one_interface_is_enough(reports: Seq<Option<String>>, i: int)
    ensures
        0 <= i < reports.len() && reports[i] is Some && interface_up(reports[i]->0@)
            ==> some_interface_up(reports),
        (forall|j: int|
            0 <= j < reports.len() ==> #[trigger] reports[j] is None || !interface_up(
                reports[j]->0@,
            )) ==> !some_interface_up(reports),
{
}

/// Reading the listing of hardware ports line by line: a line that names a port sets
/// the port that follows, in lower case; a line that names a device tells of one
/// just where the port at hand takes a cable; any other line does nothing.
pub proof fn law_reading_the_hardware_ports(listing: Seq<Seq<char>>, line: Seq<char>)
    ensures
        ({
            let text = trimmed(line);
            let port = port_after_all(listing);
            let names_port = starts_with(text, "Hardware Port: "@);
            let names_device = !names_port && starts_with(text, "Device: "@);
            let cable = occurs(port, "ethernet"@) || occurs(port, "lan"@) || occurs(
                port,
                "thunderbolt"@,
            );
            &&& names_port ==> port_after_all(listing.push(line)) == lowered(trimmed(text.skip(15)))
            &&& !names_port ==> port_after_all(listing.push(line)) == port
            &&& names_device && cable ==> wired_in(listing.push(line)) == wired_in(listing).push(
                trimmed(text.skip(8)),
            )
            &&& !(names_device && cable) ==> wired_in(listing.push(line)) == wired_in(listing)
        }),
        port_after_all(Seq::empty()).len() == 0,
        wired_in(Seq::empty()).len() == 0,
{
    assert(listing.push(line).drop_last() == listing);
    assert(listing.push(line).last() == line);
    reveal_strlit("Hardware Port: ");
    reveal_strlit("Device: ");
    assert("Hardware Port: "@.len() == 15);
    assert("Device: "@.len() == 8);
}

/// The value under a key is that of the first entry with the key.
pub proof fn law_the_first_entry_counts(
    entries: Seq<(Seq<char>, JsonTree)>,
    key: Seq<char>,
    at: int,
)
    requires
        0 <= at <= entries.len(),
        forall|i: int| 0 <= i < at ==> (#[trigger] entries[i]).0 != key,
        at < entries.len() ==> entries[at].0 == key,
    ensures
        at < entries.len() ==> entry(entries, key) == Some(entries[at].1),
        at == entries.len() ==> entry(entries, key) is None,
    decreases entries.len(),
{
    if entries.len() > 0 && at > 0 {
        let rest = entries.drop_first();
        assert(entries[0].0 != key);
        assert forall|i: int| 0 <= i < at - 1 implies (#[trigger] rest[i]).0 != key by {
            assert(rest[i] == entries[i + 1]);
        }
        if at < entries.len() {
            assert(rest[at - 1] == entries[at]);
        }
        law_the_first_entry_counts(rest, key, at - 1);
    }
}

/// An object describes an external display just where it has one of four marks of a
/// display, has a name that is not that of the whole group, and is not said to be
/// built in.
pub proof fn law_which_objects_describe_displays(entries: Seq<(Seq<char>, JsonTree)>)
    ensures
        ({
            let marked = entry(entries, "spdisplays_resolution"@) is Some || entry(
                entries,
                "spdisplays_display_type"@,
            ) is Some || entry(entries, "spdisplays_vendor-id"@) is Some || entry(
                entries,
                "spdisplays_ndrvs"@,
            ) is Some;
            let named = entry(entries, "_name"@) matches Some(JsonTree::Text(name)) && name.len() > 0
                && name != "Graphics/Displays"@;
            let built_in = entry(entries, "spdisplays_builtin"@) matches Some(JsonTree::Text(said))
                && same_ignoring_case(said, "spdisplays_yes"@);
            &&& !marked || !named || built_in ==> !describes_external_display(entries)
            &&& marked && named && !built_in ==> describes_external_display(entries)
        }),
{
    reveal_strlit("spdisplays_yes");
    assert(ascii_lowered("spdisplays_yes"@).len() == 14);
    assert(ascii_lowered(Seq::<char>::empty()).len() == 0);
}

/// An external display is seen at whatever depth: what shows one inside an object or
/// an array makes that object or array show one, and nothing else does.
pub proof fn law_displays_are_seen_at_any_depth(
    entries: Seq<(Seq<char>, JsonTree)>,
    items: Seq<JsonTree>,
    text: Seq<char>,
    i: int,
)
    ensures
        describes_external_display(entries) ==> shows_external_display(JsonTree::Object(entries)),
        0 <= i < entries.len() && shows_external_display(entries[i].1) ==> shows_external_display(
            JsonTree::Object(entries),
        ),
        0 <= i < items.len() && shows_external_display(items[i]) ==> shows_external_display(
            JsonTree::Array(items),
        ),
        !describes_external_display(entries) && (forall|j: int|
            0 <= j < entries.len() ==> !shows_external_display((#[trigger] entries[j]).1))
            ==> !shows_external_display(JsonTree::Object(entries)),
        (forall|j: int| 0 <= j < items.len() ==> !shows_external_display(#[trigger] items[j]))
            ==> !shows_external_display(JsonTree::Array(items)),
        !shows_external_display(JsonTree::Text(text)),
        !shows_external_display(JsonTree::Other),
{
    reveal_with_fuel(shows_external_display, 2);
    if 0 <= i < items.len() && shows_external_display(items[i]) {
        let shown = JsonTree::Array(items);
        assert(shown->Array_0[i] == items[i]);
        assert(shows_external_display(shown));
    }
}

} // verus!
