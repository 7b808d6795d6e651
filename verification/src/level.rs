//! Measured quantities (volume, sensitivity, acceleration, loudness).
//!
//! A [`Level`] is an IEEE-754 binary32 number held by its bit pattern. The
//! library compares, clamps and selects levels; it never computes with them.

use vstd::prelude::*;

verus! {

/// A binary32 number, by bit pattern. `==` on levels compares patterns, so a
/// NaN equals itself and the two zeros differ; [`Level::lt`] and [`Level::le`]
/// compare as numbers.
#[derive(Debug, Clone, Copy, PartialEq, Eq, Structural)]
pub struct Level {
    pub bits: u32,
}

/// Weight of the sign bit.
pub const SIGN: u32 = 0x8000_0000;

/// The magnitude of an infinity; a greater magnitude is a NaN.
pub const INFINITE: u32 = 0x7f80_0000;

impl Level {
    /// The pattern without its sign bit.
    pub open spec fn magnitude(self) -> int {
        self.bits as int % SIGN as int
    }

    pub open spec fn is_nan_spec(self) -> bool {
        self.magnitude() > INFINITE
    }

    /// An integer that orders levels as their numbers are ordered; the two
    /// zeros share one key. Meaningless for a NaN.
    pub open spec fn key(self) -> int {
        if self.bits >= SIGN {
            -self.magnitude()
        } else {
            self.magnitude()
        }
    }

    /// Numeric `<`: false whenever a NaN takes part.
    pub open spec fn lt_spec(self, other: Level) -> bool {
        !self.is_nan_spec() && !other.is_nan_spec() && self.key() < other.key()
    }

    /// Numeric `<=`: false whenever a NaN takes part.
    pub open spec fn le_spec(self, other: Level) -> bool {
        !self.is_nan_spec() && !other.is_nan_spec() && self.key() <= other.key()
    }

    /// `low` below the range, `high` above it, the level itself inside. A NaN
    /// is neither below nor above and stays.
    pub open spec fn clamp_spec(self, low: Level, high: Level) -> Level {
        if self.lt_spec(low) {
            low
        } else if high.lt_spec(self) {
            high
        } else {
            self
        }
    }

    /// The greater of two levels; a NaN yields to the other level.
    pub open spec fn max_spec(self, other: Level) -> Level {
        if self.is_nan_spec() || self.lt_spec(other) {
            other
        } else {
            self
        }
    }

    /// The lesser of two levels; a NaN yields to the other level.
    pub open spec fn min_spec(self, other: Level) -> Level {
        if self.is_nan_spec() || other.lt_spec(self) {
            other
        } else {
            self
        }
    }

    pub fn from_bits(bits: u32) -> (level: Level)
        ensures
            level.bits == bits,
    {
        Level { bits }
    }

    pub fn is_nan(self) -> (nan: bool)
        ensures
            nan == self.is_nan_spec(),
    {
        self.bits % SIGN > INFINITE
    }

    fn order_key(self) -> (key: i64)
        ensures
            key == self.key(),
    {
        let magnitude: i64 = (self.bits % SIGN) as i64;
        if self.bits >= SIGN {
            -magnitude
        } else {
            magnitude
        }
    }

    pub fn lt(self, other: Level) -> (less: bool)
        ensures
            less == self.lt_spec(other),
    {
        !self.is_nan() && !other.is_nan() && self.order_key() < other.order_key()
    }

    pub fn le(self, other: Level) -> (at_most: bool)
        ensures
            at_most == self.le_spec(other),
    {
        !self.is_nan() && !other.is_nan() && self.order_key() <= other.order_key()
    }

    pub fn clamp(self, low: Level, high: Level) -> (clamped: Level)
        requires
            low.le_spec(high),
        ensures
            clamped == self.clamp_spec(low, high),
    {
        if self.lt(low) {
            low
        } else if high.lt(self) {
            high
        } else {
            self
        }
    }

    pub fn max(self, other: Level) -> (greater: Level)
        ensures
            greater == self.max_spec(other),
    {
        if self.is_nan() || self.lt(other) {
            other
        } else {
            self
        }
    }

    pub fn min(self, other: Level) -> (lesser: Level)
        ensures
            lesser == self.min_spec(other),
    {
        if self.is_nan() || other.lt(self) {
            other
        } else {
            self
        }
    }
}

/// Clamping keeps a number within the range and leaves a level that is within
/// the range (or is a NaN) as it is; clamping twice is clamping once.
pub proof fn law_clamp(level: Level, low: Level, high: Level)
    requires
        low.le_spec(high),
    ensures
        !level.is_nan_spec() ==> low.le_spec(level.clamp_spec(low, high))
            && level.clamp_spec(low, high).le_spec(high),
        level.is_nan_spec() ==> level.clamp_spec(low, high) == level,
        low.le_spec(level) && level.le_spec(high) ==> level.clamp_spec(low, high) == level,
        level.clamp_spec(low, high).clamp_spec(low, high) == level.clamp_spec(low, high),
{
}

/// Levels that are numbers are ordered as their numbers: a level without a sign by
/// its pattern, a signed one against its pattern, and a signed one below one
/// without, but that the two zeros are level.
pub proof fn law_levels_follow_their_patterns(a: Level, b: Level)
    requires
        a.bits % 0x8000_0000 <= 0x7f80_0000,
        b.bits % 0x8000_0000 <= 0x7f80_0000,
    ensures
        a.bits < 0x8000_0000 && b.bits < 0x8000_0000 ==> (a.lt_spec(b) <==> a.bits < b.bits),
        a.bits >= 0x8000_0000 && b.bits >= 0x8000_0000 ==> (a.lt_spec(b) <==> a.bits > b.bits),
        a.bits >= 0x8000_0000 && b.bits < 0x8000_0000 ==> (a.lt_spec(b) <==> a.bits != 0x8000_0000
            || b.bits != 0),
        a.bits < 0x8000_0000 && b.bits >= 0x8000_0000 ==> !a.lt_spec(b),
        a.le_spec(b) <==> !b.lt_spec(a),
{
}

/// A pattern above infinity is no number: it is below nothing, above nothing and
/// level with nothing.
pub proof fn law_a_nan_compares_with_nothing(nan: Level, other: Level)
    requires
        nan.bits % 0x8000_0000 > 0x7f80_0000,
    ensures
        nan.is_nan_spec(),
        !nan.lt_spec(other) && !other.lt_spec(nan),
        !nan.le_spec(other) && !other.le_spec(nan),
{
}

/// Numbers are totally ordered: of two numbers that are not level one is below the
/// other, and what is below something below is below.
pub proof fn law_numbers_are_ordered(a: Level, b: Level, c: Level)
    requires
        !a.is_nan_spec(),
        !b.is_nan_spec(),
        !c.is_nan_spec(),
    ensures
        a.le_spec(b) || b.le_spec(a),
        a.lt_spec(b) <==> !b.le_spec(a),
        a.le_spec(a),
        a.lt_spec(b) && b.le_spec(c) ==> a.lt_spec(c),
        a.le_spec(b) && b.lt_spec(c) ==> a.lt_spec(c),
        a.le_spec(b) && b.le_spec(c) ==> a.le_spec(c),
{
}

/// The greater of two levels is one of them and below neither; a NaN is only given
/// where both are.
pub proof fn law_the_greater_of_two(a: Level, b: Level)
    ensures
        a.max_spec(b) == a || a.max_spec(b) == b,
        !a.max_spec(b).lt_spec(a) && !a.max_spec(b).lt_spec(b),
        a.max_spec(b).is_nan_spec() ==> a.is_nan_spec() && b.is_nan_spec(),
{
}

/// The lesser of two levels is one of them and above neither; a NaN is only given
/// where both are.
pub proof fn law_the_lesser_of_two(a: Level, b: Level)
    ensures
        a.min_spec(b) == a || a.min_spec(b) == b,
        !a.lt_spec(a.min_spec(b)) && !b.lt_spec(a.min_spec(b)),
        a.min_spec(b).is_nan_spec() ==> a.is_nan_spec() && b.is_nan_spec(),
{
}

/// A level below the range is brought to its lower end, one above it to its upper
/// end.
pub proof fn law_clamp_goes_to_the_nearer_end(level: Level, low: Level, high: Level)
    requires
        low.le_spec(high),
    ensures
        level.lt_spec(low) ==> level.clamp_spec(low, high) == low,
        high.lt_spec(level) ==> level.clamp_spec(low, high) == high,
{
}

} // verus!
