//! Words by which devices give themselves away.

use vstd::prelude::*;

use crate::text::{contains, occurs};

verus! {

/// The (lower case) text mentions a dock or a maker of docks. Laptop makers are
/// left out: their built-in devices would always match.
pub open spec fn mentions_dock(text: Seq<char>) -> bool {
    occurs(text, "thunderbolt"@) || occurs(text, "dock"@) || occurs(text, "caldigit"@) || occurs(
        text,
        "anker"@,
    ) || occurs(text, "belkin"@) || occurs(text, "satechi"@) || occurs(text, "j5create"@) || occurs(
        text,
        "ugreen"@,
    ) || occurs(text, "displaylink"@)
}

/// Whether the lower case text mentions a dock or a maker of docks.
pub fn names_dock(text: &Vec<char>) -> (dock: bool)
    ensures
        dock == mentions_dock(text@),
{
    contains(text, "thunderbolt") || contains(text, "dock") || contains(text, "caldigit")
        || contains(text, "anker") || contains(text, "belkin") || contains(text, "satechi")
        || contains(text, "j5create") || contains(text, "ugreen") || contains(text, "displaylink")
}

/// The (lower case) text mentions a wireless network.
pub open spec fn mentions_wireless(text: Seq<char>) -> bool {
    occurs(text, "wifi"@) || occurs(text, "wi-fi"@) || occurs(text, "wlan"@) || occurs(
        text,
        "wireless"@,
    )
}

/// Whether the lower case text mentions a wireless network.
pub fn names_wireless(text: &Vec<char>) -> (wireless: bool)
    ensures
        wireless == mentions_wireless(text@),
{
    contains(text, "wifi") || contains(text, "wi-fi") || contains(text, "wlan") || contains(
        text,
        "wireless",
    )
}

/// Each of nine words is a sign of a dock, and nothing else is.
pub proof fn law_signs_of_a_dock(text: Seq<char>)
    ensures
        occurs(text, "thunderbolt"@) ==> mentions_dock(text),
        occurs(text, "dock"@) ==> mentions_dock(text),
        occurs(text, "caldigit"@) ==> mentions_dock(text),
        occurs(text, "anker"@) ==> mentions_dock(text),
        occurs(text, "belkin"@) ==> mentions_dock(text),
        occurs(text, "satechi"@) ==> mentions_dock(text),
        occurs(text, "j5create"@) ==> mentions_dock(text),
        occurs(text, "ugreen"@) ==> mentions_dock(text),
        occurs(text, "displaylink"@) ==> mentions_dock(text),
        !occurs(text, "thunderbolt"@) && !occurs(text, "dock"@) && !occurs(text, "caldigit"@)
            && !occurs(text, "anker"@) && !occurs(text, "belkin"@) && !occurs(text, "satechi"@)
            && !occurs(text, "j5create"@) && !occurs(text, "ugreen"@) && !occurs(
            text,
            "displaylink"@,
        ) ==> !mentions_dock(text),
{
}

/// Each of four words is a sign of a wireless network, and nothing else is.
pub proof fn law_signs_of_a_wireless_network(text: Seq<char>)
    ensures
        occurs(text, "wifi"@) ==> mentions_wireless(text),
        occurs(text, "wi-fi"@) ==> mentions_wireless(text),
        occurs(text, "wlan"@) ==> mentions_wireless(text),
        occurs(text, "wireless"@) ==> mentions_wireless(text),
        !occurs(text, "wifi"@) && !occurs(text, "wi-fi"@) && !occurs(text, "wlan"@) && !occurs(
            text,
            "wireless"@,
        ) ==> !mentions_wireless(text),
{
}

} // verus!
