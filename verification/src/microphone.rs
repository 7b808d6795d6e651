//! Slaps heard by the microphone.
//!
//! A slap is loud, stands out of the noise of the room, and is short: its peak
//! towers over its mean. Loudness is computed outside; the detector here keeps the
//! noise floor and decides.

use vstd::prelude::*;

use crate::cooldown::{is_due, Cooldown, HEAD_START, NANOS_PER_MILLI};
use crate::level::Level;
use crate::settings::{ONE, ZERO};

verus! {

/// How many buffers are heard before any of them can be a slap.
pub const CALIBRATION_CALLBACKS: u32 = 20;

/// The least noise floor: 0.005.
pub const LEAST_NOISE: u32 = 0x3ba3_d70a;

/// The crest factor that a slap exceeds: 2.5. Playback and voices stay below it.
pub const LEAST_CREST: u32 = 0x4020_0000;

/// The loudness that a crest factor is told of: more than 0.0001.
pub const LEAST_LOUDNESS: u32 = 0x38d1_b717;

/// Three times the least noise floor: 0.015.
pub const LEAST_LOUD_BOUND: u32 = 0x3c75_c28f;

/// What the detector remembers between buffers.
#[derive(Debug, Clone, Copy, PartialEq, Eq, Structural)]
pub struct MicState {
    pub noise_floor: Level,
    pub cooldown: Cooldown,
    pub callbacks_seen: u32,
    /// After a trigger nothing is heard until then, so that the sound from the
    /// speakers does not trigger again.
    pub suppress_until: u128,
}

/// One buffer, in figures. The caller computes those that take arithmetic.
#[derive(Debug, Clone, Copy, PartialEq, Eq, Structural)]
pub struct MicFrame {
    pub now: u64,
    /// The root mean square of the samples.
    pub rms: Level,
    /// The noise floor that the buffer would give in calibration: one and a half
    /// times its root mean square.
    pub raised: Level,
    /// The loudness below which a buffer counts as noise: two and a half times the
    /// noise floor.
    pub quiet_bound: Level,
    /// The noise floor with some of the buffer blended in: 0.997 of the one and
    /// 0.003 of the other.
    pub blended: Level,
}

/// What a buffer is compared with to be a slap.
#[derive(Debug, Clone, Copy, PartialEq, Eq, Structural)]
pub struct MicPeak {
    /// The loudness that stands out of the noise: three times the noise floor, as it
    /// is after the buffer was heard.
    pub loud_bound: Level,
    /// The peak of the samples divided by their root mean square.
    pub crest: Level,
}

/// The detector is still learning the noise floor when the buffer comes.
pub open spec fn is_calibrating(state: MicState) -> bool {
    state.callbacks_seen < CALIBRATION_CALLBACKS
}

pub open spec fn is_suppressed(state: MicState, now: int) -> bool {
    now < state.suppress_until
}

pub open spec fn counted(callbacks: u32) -> u32 {
    if callbacks == u32::MAX {
        callbacks
    } else {
        (callbacks + 1) as u32
    }
}

/// The noise floor after a buffer.
pub open spec fn floor_after(state: MicState, frame: MicFrame) -> Level {
    let least = Level { bits: LEAST_NOISE };
    if is_calibrating(state) {
        state.noise_floor.max_spec(frame.raised).max_spec(least)
    } else if is_suppressed(state, frame.now as int) {
        state.noise_floor
    } else if frame.rms.lt_spec(frame.quiet_bound) {
        frame.blended.max_spec(least)
    } else {
        state.noise_floor
    }
}

/// The detector after it has heard a buffer, before it decides on it.
pub open spec fn heard(state: MicState, frame: MicFrame) -> MicState {
    MicState {
        noise_floor: floor_after(state, frame),
        callbacks_seen: counted(state.callbacks_seen),
        ..state
    }
}

/// The buffer is one that can be a slap.
pub open spec fn is_listening(state: MicState, frame: MicFrame) -> bool {
    !is_calibrating(state) && !is_suppressed(state, frame.now as int)
}

/// The buffer sounds like a slap: above the threshold, above the noise, and
/// impulsive.
pub open spec fn sounds_like_slap(threshold: Level, rms: Level, peak: MicPeak) -> bool {
    let crest = if (Level { bits: LEAST_LOUDNESS }).lt_spec(rms) {
        peak.crest
    } else {
        Level { bits: ZERO }
    };
    threshold.lt_spec(rms) && peak.loud_bound.lt_spec(rms) && (Level { bits: LEAST_CREST }).lt_spec(
        crest,
    )
}

pub open spec fn is_hit(
    state: MicState,
    threshold: Level,
    cooldown_ms: u64,
    now: u64,
    rms: Level,
    peak: MicPeak,
) -> bool {
    sounds_like_slap(threshold, rms, peak) && is_due(
        state.cooldown.last as int,
        now as int,
        cooldown_ms as int,
    )
}

/// The detector after a slap.
pub open spec fn triggered(state: MicState, cooldown_ms: u64, now: u64) -> MicState {
    MicState {
        cooldown: Cooldown { last: now as i128 },
        suppress_until: (now + cooldown_ms * NANOS_PER_MILLI) as u128,
        ..state
    }
}

impl MicState {
    /// The detector at the start. Its noise floor is the threshold, so that nothing
    /// triggers by mistake while it learns.
    pub fn new(threshold: Level, now: u64) -> (state: MicState)
        ensures
            state.noise_floor == threshold,
            state.cooldown.last == now - HEAD_START,
            state.callbacks_seen == 0,
            state.suppress_until == now,
    {
        MicState {
            noise_floor: threshold,
            cooldown: Cooldown::new(now),
            callbacks_seen: 0,
            suppress_until: now as u128,
        }
    }

    /// Hears a buffer; says whether it can be a slap.
    pub fn hear(&mut self, frame: MicFrame) -> (listening: bool)
        ensures
            *final(self) == heard(*old(self), frame),
            listening == is_listening(*old(self), frame),
    {
        let least = Level::from_bits(LEAST_NOISE);
        let calibrating = self.callbacks_seen < CALIBRATION_CALLBACKS;
        if self.callbacks_seen < u32::MAX {
            self.callbacks_seen = self.callbacks_seen + 1;
        }
        if calibrating {
            self.noise_floor = self.noise_floor.max(frame.raised).max(least);
            return false;
        }
        if (frame.now as u128) < self.suppress_until {
            return false;
        }
        if frame.rms.lt(frame.quiet_bound) {
            self.noise_floor = frame.blended.max(least);
        }
        true
    }

    /// Decides on a buffer that can be a slap.
    pub fn strike(
        &mut self,
        threshold: Level,
        cooldown_ms: u64,
        now: u64,
        rms: Level,
        peak: MicPeak,
    ) -> (hit: bool)
        ensures
            hit == is_hit(*old(self), threshold, cooldown_ms, now, rms, peak),
            *final(self) == if hit {
                triggered(*old(self), cooldown_ms, now)
            } else {
                *old(self)
            },
    {
        let crest = if Level::from_bits(LEAST_LOUDNESS).lt(rms) {
            peak.crest
        } else {
            Level::from_bits(ZERO)
        };
        let slap = threshold.lt(rms) && peak.loud_bound.lt(rms) && Level::from_bits(LEAST_CREST).lt(
            crest,
        );
        if slap && self.cooldown.due(now, cooldown_ms) {
            self.cooldown = Cooldown { last: now as i128 };
            let pause: u128 = cooldown_ms as u128 * 1_000_000;
            self.suppress_until = now as u128 + pause;
            return true;
        }
        false
    }
}

pub open spec fn intensity_of(relative: Level) -> Level {
    relative.min_spec(Level { bits: ONE })
}

/// How hard a slap was: its loudness relative to half of the loudest, but no more
/// than one.
pub fn slap_intensity(relative: Level) -> (intensity: Level)
    ensures
        intensity == intensity_of(relative),
{
    relative.min(Level::from_bits(ONE))
}

// ── Laws ─────────────────────────────────────────────────────────────

/// One buffer from beginning to end: the detector after it, and whether it was a
/// slap.
pub open spec fn mic_step(
    state: MicState,
    threshold: Level,
    cooldown_ms: u64,
    frame: MicFrame,
    peak: MicPeak,
) -> (MicState, bool) {
    let after = heard(state, frame);
    if is_listening(state, frame) && is_hit(
        after,
        threshold,
        cooldown_ms,
        frame.now,
        frame.rms,
        peak,
    ) {
        (triggered(after, cooldown_ms, frame.now), true)
    } else {
        (after, false)
    }
}

/// The detector after the first buffers of a recording.
pub open spec fn mic_run(
    state: MicState,
    threshold: Level,
    cooldown_ms: u64,
    frames: Seq<(MicFrame, MicPeak)>,
    heard: nat,
) -> MicState
    decreases heard,
{
    if heard == 0 {
        state
    } else {
        let at = (heard - 1) as nat;
        let before = mic_run(state, threshold, cooldown_ms, frames, at);
        let (frame, peak) = frames[at as int];
        mic_step(before, threshold, cooldown_ms, frame, peak).0
    }
}

/// The buffer with that number is a slap.
pub open spec fn mic_hit(
    state: MicState,
    threshold: Level,
    cooldown_ms: u64,
    frames: Seq<(MicFrame, MicPeak)>,
    at: int,
) -> bool {
    let before = mic_run(state, threshold, cooldown_ms, frames, at as nat);
    mic_step(before, threshold, cooldown_ms, frames[at].0, frames[at].1).1
}

/// The clock of a recording does not go back.
pub open spec fn is_chronological(frames: Seq<(MicFrame, MicPeak)>) -> bool {
    forall|i: int, j: int|
        0 <= i <= j < frames.len() ==> (#[trigger] frames[i]).0.now <= (#[trigger] frames[j]).0.now
}

proof fn lemma_run_remembers(
    state: MicState,
    threshold: Level,
    cooldown_ms: u64,
    frames: Seq<(MicFrame, MicPeak)>,
    at: int,
    heard: nat,
)
    requires
        cooldown_ms == 0 ==> is_chronological(frames),
        0 <= at < heard <= frames.len(),
        mic_hit(state, threshold, cooldown_ms, frames, at),
    ensures
        mic_run(state, threshold, cooldown_ms, frames, heard).cooldown.last >= frames[at].0.now,
    decreases heard,
{
    if at + 1 < heard {
        lemma_run_remembers(state, threshold, cooldown_ms, frames, at, (heard - 1) as nat);
        if cooldown_ms == 0 {
            assert(frames[at].0.now <= frames[heard - 1].0.now);
        }
    }
}

/// Between two slaps lies at least the cooldown, whatever is heard. Only without a
/// cooldown does it take a clock that does not go back.
pub proof fn law_slaps_keep_their_distance(
    state: MicState,
    threshold: Level,
    cooldown_ms: u64,
    frames: Seq<(MicFrame, MicPeak)>,
    first: int,
    second: int,
)
    requires
        cooldown_ms == 0 ==> is_chronological(frames),
        0 <= first < second < frames.len(),
        mic_hit(state, threshold, cooldown_ms, frames, first),
        mic_hit(state, threshold, cooldown_ms, frames, second),
    ensures
        frames[second].0.now - frames[first].0.now >= cooldown_ms * NANOS_PER_MILLI,
{
    lemma_run_remembers(state, threshold, cooldown_ms, frames, first, second as nat);
    if cooldown_ms == 0 {
        assert(frames[first].0.now <= frames[second].0.now);
    }
}

proof fn lemma_run_counts(
    state: MicState,
    threshold: Level,
    cooldown_ms: u64,
    frames: Seq<(MicFrame, MicPeak)>,
    heard: nat,
)
    requires
        state.callbacks_seen == 0,
        heard <= frames.len(),
        heard <= CALIBRATION_CALLBACKS,
    ensures
        mic_run(state, threshold, cooldown_ms, frames, heard).callbacks_seen == heard,
    decreases heard,
{
    if heard > 0 {
        lemma_run_counts(state, threshold, cooldown_ms, frames, (heard - 1) as nat);
    }
}

/// Nothing is a slap while the detector learns the noise of the room.
pub proof fn law_calibration_is_silent(
    state: MicState,
    threshold: Level,
    cooldown_ms: u64,
    frames: Seq<(MicFrame, MicPeak)>,
    at: int,
)
    requires
        state.callbacks_seen == 0,
        0 <= at < frames.len(),
        at < CALIBRATION_CALLBACKS,
    ensures
        !mic_hit(state, threshold, cooldown_ms, frames, at),
{
    lemma_run_counts(state, threshold, cooldown_ms, frames, at as nat);
}

/// Once a buffer has been heard the noise floor is a number and never below its
/// least value.
pub proof fn law_noise_floor_holds(
    state: MicState,
    threshold: Level,
    cooldown_ms: u64,
    frames: Seq<(MicFrame, MicPeak)>,
    heard: nat,
)
    requires
        state.callbacks_seen == 0,
        0 < heard <= frames.len(),
    ensures
        (Level { bits: LEAST_NOISE }).le_spec(
            mic_run(state, threshold, cooldown_ms, frames, heard).noise_floor,
        ),
    decreases heard,
{
    if heard > 1 {
        law_noise_floor_holds(state, threshold, cooldown_ms, frames, (heard - 1) as nat);
    } else {
        assert(mic_run(state, threshold, cooldown_ms, frames, 0) == state);
    }
}

/// A slap meets every condition: it comes after calibration and outside of
/// suppression, it is louder than the threshold and than the loud bound, and its
/// crest is that of an impulse. Where the loud bound is three times a noise floor,
/// which is never below its least value, the slap is louder than three times that
/// value.
pub proof fn law_slaps_meet_every_condition(
    state: MicState,
    threshold: Level,
    cooldown_ms: u64,
    frames: Seq<(MicFrame, MicPeak)>,
    at: int,
)
    requires
        state.callbacks_seen == 0,
        0 <= at < frames.len(),
        mic_hit(state, threshold, cooldown_ms, frames, at),
    ensures
        ({
            let before = mic_run(state, threshold, cooldown_ms, frames, at as nat);
            let (frame, peak) = frames[at];
            &&& at >= CALIBRATION_CALLBACKS
            &&& !is_suppressed(before, frame.now as int)
            &&& threshold.lt_spec(frame.rms)
            &&& peak.loud_bound.lt_spec(frame.rms)
            &&& (Level { bits: LEAST_LOUDNESS }).lt_spec(frame.rms)
            &&& (Level { bits: LEAST_CREST }).lt_spec(peak.crest)
            &&& (Level { bits: LEAST_NOISE }).le_spec(heard(before, frame).noise_floor)
            &&& (Level { bits: LEAST_LOUD_BOUND }).le_spec(peak.loud_bound) ==> (Level {
                bits: LEAST_LOUD_BOUND,
            }).lt_spec(frame.rms)
        }),
{
    let before = mic_run(state, threshold, cooldown_ms, frames, at as nat);
    if at < CALIBRATION_CALLBACKS {
        law_calibration_is_silent(state, threshold, cooldown_ms, frames, at);
    }
    law_noise_floor_holds(state, threshold, cooldown_ms, frames, at as nat);
}

/// An intensity is a number and at most one; that of a sound that is heard at all
/// is more than nothing.
pub proof fn law_slap_intensity_in_range(relative: Level)
    ensures
        intensity_of(relative).le_spec(Level { bits: ONE }),
        (Level { bits: ZERO }).lt_spec(relative) ==> (Level { bits: ZERO }).lt_spec(
            intensity_of(relative),
        ),
{
}

/// Suppression freezes the detector: nothing is a slap, and only the count of buffers
/// moves.
pub proof fn law_suppression_freezes_the_detector(
    state: MicState,
    threshold: Level,
    cooldown_ms: u64,
    frame: MicFrame,
    peak: MicPeak,
)
    requires
        !is_calibrating(state),
        is_suppressed(state, frame.now as int),
    ensures
        mic_step(state, threshold, cooldown_ms, frame, peak) == (
            MicState { callbacks_seen: counted(state.callbacks_seen), ..state },
            false,
        ),
{
}

/// What is a slap and what is not: exactly the buffers that come after calibration
/// and outside of suppression, a whole cooldown after the last slap, louder than the
/// threshold and than the loud bound, louder than next to nothing, and with the
/// crest of an impulse. Nothing else has a say.
pub proof fn law_just_such_buffers_are_slaps(
    state: MicState,
    threshold: Level,
    cooldown_ms: u64,
    frame: MicFrame,
    peak: MicPeak,
)
    ensures
        mic_step(state, threshold, cooldown_ms, frame, peak).1 <==> {
            &&& state.callbacks_seen >= CALIBRATION_CALLBACKS
            &&& frame.now >= state.suppress_until
            &&& cooldown_ms == 0 || frame.now - state.cooldown.last >= cooldown_ms * 1_000_000
            &&& threshold.lt_spec(frame.rms)
            &&& peak.loud_bound.lt_spec(frame.rms)
            &&& (Level { bits: LEAST_LOUDNESS }).lt_spec(frame.rms)
            &&& (Level { bits: LEAST_CREST }).lt_spec(peak.crest)
        },
{
    if !(Level { bits: LEAST_LOUDNESS }).lt_spec(frame.rms) {
        assert(!(Level { bits: LEAST_CREST }).lt_spec(Level { bits: ZERO }));
    }
}

/// In a recording, every buffer that meets the conditions is a slap.
pub proof fn law_every_such_buffer_is_a_slap(
    state: MicState,
    threshold: Level,
    cooldown_ms: u64,
    frames: Seq<(MicFrame, MicPeak)>,
    at: int,
)
    requires
        state.callbacks_seen == 0,
        CALIBRATION_CALLBACKS <= at < frames.len(),
        ({
            let before = mic_run(state, threshold, cooldown_ms, frames, at as nat);
            let (frame, peak) = frames[at];
            &&& frame.now >= before.suppress_until
            &&& frame.now - before.cooldown.last >= cooldown_ms * 1_000_000
            &&& threshold.lt_spec(frame.rms)
            &&& peak.loud_bound.lt_spec(frame.rms)
            &&& (Level { bits: LEAST_LOUDNESS }).lt_spec(frame.rms)
            &&& (Level { bits: LEAST_CREST }).lt_spec(peak.crest)
        }),
    ensures
        mic_hit(state, threshold, cooldown_ms, frames, at),
{
    lemma_run_count_reaches(state, threshold, cooldown_ms, frames, at as nat);
    let before = mic_run(state, threshold, cooldown_ms, frames, at as nat);
    law_just_such_buffers_are_slaps(before, threshold, cooldown_ms, frames[at].0, frames[at].1);
}

proof fn lemma_run_count_reaches(
    state: MicState,
    threshold: Level,
    cooldown_ms: u64,
    frames: Seq<(MicFrame, MicPeak)>,
    heard: nat,
)
    requires
        state.callbacks_seen == 0,
        heard <= frames.len(),
    ensures
        mic_run(state, threshold, cooldown_ms, frames, heard).callbacks_seen == heard || mic_run(
            state,
            threshold,
            cooldown_ms,
            frames,
            heard,
        ).callbacks_seen == u32::MAX,
    decreases heard,
{
    if heard > 0 {
        lemma_run_count_reaches(state, threshold, cooldown_ms, frames, (heard - 1) as nat);
    }
}

/// What a slap leaves behind: its time, and suppression for just one cooldown. What
/// is no slap leaves both alone. Either way one more buffer has been counted.
pub proof fn law_what_a_buffer_leaves_behind(
    state: MicState,
    threshold: Level,
    cooldown_ms: u64,
    frame: MicFrame,
    peak: MicPeak,
)
    ensures
        ({
            let (after, hit) = mic_step(state, threshold, cooldown_ms, frame, peak);
            &&& hit ==> after.cooldown.last == frame.now && after.suppress_until == frame.now
                + cooldown_ms * 1_000_000
            &&& !hit ==> after.cooldown == state.cooldown && after.suppress_until
                == state.suppress_until
            &&& state.callbacks_seen < u32::MAX ==> after.callbacks_seen == state.callbacks_seen + 1
            &&& state.callbacks_seen == u32::MAX ==> after.callbacks_seen == u32::MAX
        }),
{
    let pause = cooldown_ms * 1_000_000;
    assert(0 <= frame.now + pause <= u128::MAX);
}

/// How the noise floor moves. In calibration it becomes the greatest of what it was,
/// what the buffer raises it to and its least value. After that a buffer quieter
/// than the quiet bound blends in, and a louder one leaves the floor as it was.
pub proof fn law_how_the_noise_floor_moves(
    state: MicState,
    threshold: Level,
    cooldown_ms: u64,
    frame: MicFrame,
    peak: MicPeak,
)
    ensures
        ({
            let least = Level { bits: LEAST_NOISE };
            let floor = mic_step(state, threshold, cooldown_ms, frame, peak).0.noise_floor;
            &&& state.callbacks_seen < CALIBRATION_CALLBACKS ==> {
                &&& floor == state.noise_floor || floor == frame.raised || floor == least
                &&& !floor.lt_spec(state.noise_floor) && !floor.lt_spec(frame.raised)
                &&& least.le_spec(floor)
            }
            &&& state.callbacks_seen >= CALIBRATION_CALLBACKS && frame.now < state.suppress_until
                ==> floor == state.noise_floor
            &&& state.callbacks_seen >= CALIBRATION_CALLBACKS && frame.now >= state.suppress_until
                && !frame.rms.lt_spec(frame.quiet_bound) ==> floor == state.noise_floor
            &&& state.callbacks_seen >= CALIBRATION_CALLBACKS && frame.now >= state.suppress_until
                && frame.rms.lt_spec(frame.quiet_bound) ==> {
                &&& floor == frame.blended || floor == least
                &&& !floor.lt_spec(frame.blended)
                &&& least.le_spec(floor)
            }
        }),
{
}

/// A buffer is decided on just where it comes after calibration and outside of
/// suppression, and the two halves of a buffer's way are those of the detector.
pub proof fn law_listening_begins_after_calibration(state: MicState, frame: MicFrame)
    ensures
        is_listening(state, frame) <==> state.callbacks_seen >= CALIBRATION_CALLBACKS && frame.now
            >= state.suppress_until,
        heard(state, frame).cooldown == state.cooldown,
        heard(state, frame).suppress_until == state.suppress_until,
{
}

/// A slap of up to the full loudness has that intensity, a louder one the full.
pub proof fn law_intensity_follows_loudness(relative: Level)
    ensures
        relative.le_spec(Level { bits: ONE }) ==> intensity_of(relative) == relative,
        (Level { bits: ONE }).lt_spec(relative) ==> intensity_of(relative) == (Level { bits: ONE }),
{
}

/// The second half of the decision, whatever the first half said: a buffer strikes
/// just where it is louder than the threshold, than the loud bound and than next to
/// nothing, has the crest of an impulse, and comes a whole cooldown after the last
/// slap. A strike changes the time of the last slap and the suppression only.
pub proof fn law_what_strikes(
    state: MicState,
    threshold: Level,
    cooldown_ms: u64,
    now: u64,
    rms: Level,
    peak: MicPeak,
)
    ensures
        is_hit(state, threshold, cooldown_ms, now, rms, peak) <==> {
            &&& cooldown_ms == 0 || now >= state.cooldown.last + cooldown_ms * 1_000_000
            &&& !rms.le_spec(threshold) && !rms.is_nan_spec() && !threshold.is_nan_spec()
            &&& !rms.le_spec(peak.loud_bound) && !peak.loud_bound.is_nan_spec()
            &&& (Level { bits: LEAST_LOUDNESS }).lt_spec(rms)
            &&& (Level { bits: LEAST_CREST }).lt_spec(peak.crest)
        },
        ({
            let after = triggered(state, cooldown_ms, now);
            &&& after.noise_floor == state.noise_floor
            &&& after.callbacks_seen == state.callbacks_seen
            &&& after.cooldown.last == now
            &&& after.suppress_until == now + cooldown_ms * 1_000_000
        }),
{
    if !(Level { bits: LEAST_LOUDNESS }).lt_spec(rms) {
        assert(!(Level { bits: LEAST_CREST }).lt_spec(Level { bits: ZERO }));
    }
    let pause = cooldown_ms * 1_000_000;
    assert(0 <= now + pause <= u128::MAX);
}

/// The bounds in numbers: twenty buffers of calibration, a floor of at least 0.005,
/// a crest of 2.5, a loudness of 0.0001 and a bound of 0.015.
pub proof fn law_the_bounds_in_numbers()
    ensures
        CALIBRATION_CALLBACKS == 20,
        LEAST_NOISE == 0x3ba3_d70a,
        LEAST_CREST == 0x4020_0000,
        LEAST_LOUDNESS == 0x38d1_b717,
        LEAST_LOUD_BOUND == 0x3c75_c28f,
{
}

} // verus!
