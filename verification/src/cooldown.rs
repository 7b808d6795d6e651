//! The pause that has to pass between two triggers.
//!
//! Times are nanoseconds since a moment that the caller fixes.

use vstd::prelude::*;

verus! {

pub const NANOS_PER_MILLI: u64 = 1_000_000;

/// A fresh cooldown counts as if its last trigger lay this far back: ten seconds.
pub const HEAD_START: i128 = 10_000_000_000;

/// When something was triggered last.
#[derive(Debug, Clone, Copy, PartialEq, Eq, Structural)]
pub struct Cooldown {
    pub last: i128,
}

/// A whole cooldown has passed. A clock that stands still or goes back shows no
/// time at all, which is enough for a cooldown of nothing only.
pub open spec fn is_due(last: int, now: int, cooldown_ms: int) -> bool {
    cooldown_ms == 0 || now - last >= cooldown_ms * NANOS_PER_MILLI
}

impl Cooldown {
    pub fn new(now: u64) -> (cooldown: Cooldown)
        ensures
            cooldown.last == now - HEAD_START,
    {
        Cooldown { last: now as i128 - HEAD_START }
    }

    /// Whether the next trigger may come.
    pub fn due(&self, now: u64, cooldown_ms: u64) -> (due: bool)
        ensures
            due == is_due(self.last as int, now as int, cooldown_ms as int),
    {
        let pause: i128 = cooldown_ms as i128 * 1_000_000;
        cooldown_ms == 0 || now as i128 - pause >= self.last
    }
}

/// A trigger is due once the cooldown, in milliseconds, has passed on a clock of
/// nanoseconds, and not one nanosecond earlier; once due it stays due.
pub proof fn law_due_after_the_whole_cooldown(last: int, now: int, cooldown_ms: int)
    requires
        cooldown_ms >= 0,
    ensures
        now >= last + cooldown_ms * 1_000_000 ==> is_due(last, now, cooldown_ms),
        cooldown_ms > 0 && now < last + cooldown_ms * 1_000_000 ==> !is_due(last, now, cooldown_ms),
        is_due(last, now, 0),
        forall|later: int|
            now <= later && is_due(last, now, cooldown_ms) ==> #[trigger] is_due(
                last,
                later,
                cooldown_ms,
            ),
{
}

/// The bounds in numbers: a million nanoseconds to the millisecond, and a head start
/// of ten seconds.
pub proof fn law_the_bounds_in_numbers()
    ensures
        NANOS_PER_MILLI == 1_000_000,
        HEAD_START == 10_000_000_000,
{
}

} // verus!
