//! Slaps felt by the accelerometer, and the sensors that can feel them.
//!
//! The signal is filtered and averaged outside; the detector here decides which
//! readings count and which of them are slaps.

use vstd::prelude::*;

use crate::cooldown::{is_due, Cooldown, HEAD_START, NANOS_PER_MILLI};
use crate::level::{law_clamp, Level};
use crate::ports::Platform;
use crate::settings::{ONE, ZERO};
use crate::text::{contains, lower_or_empty, lowered, occurs, text_or_empty};

verus! {

// ── The detector ─────────────────────────────────────────────────────────

/// The reading at which the averages are first trusted.
pub const WARMUP_SAMPLES: u32 = 30;

/// The ratio of the short average to the long one that a slap exceeds: 5.
pub const LEAST_RATIO: u32 = 0x40a0_0000;

/// The long average that a ratio is told of: more than 0.000001.
pub const LEAST_AVERAGE: u32 = 0x3586_37bd;

/// The least threshold, in g: 0.04.
pub const LEAST_MOTION: u32 = 0x3d23_d70a;

/// The greatest threshold, in g: 0.3.
pub const GREATEST_MOTION: u32 = 0x3e99_999a;

/// The least intensity of a slap: 0.15.
pub const LEAST_INTENSITY: u32 = 0x3e19_999a;

/// What the detector remembers between readings.
#[derive(Debug, Clone, Copy, PartialEq, Eq, Structural)]
pub struct AccelState {
    pub initialized: bool,
    pub warmup_count: u32,
    pub cooldown: Cooldown,
}

/// One reading, in figures. The caller computes those that take arithmetic.
#[derive(Debug, Clone, Copy, PartialEq, Eq, Structural)]
pub struct AccelFrame {
    pub now: u64,
    /// The long average of the energy, with this reading in it at a weight of 0.005.
    pub lta: Level,
    /// Half of the energy of this reading.
    pub half_energy: Level,
    /// The short average, with this reading in it at a weight of 0.3, divided by the
    /// long one.
    pub quotient: Level,
    /// The motion without gravity.
    pub motion: Level,
    /// The greatest motion between two readings.
    pub peak_motion: Level,
}

/// What a reading leads to.
#[derive(Debug, Clone, Copy, PartialEq, Eq, Structural)]
pub enum AccelAction {
    /// The first reading: it only fills the filter.
    Initialize,
    /// The averages are still settling; the long one becomes this.
    WarmUp(Level),
    /// Nothing to report.
    Watch,
    /// A slap with that motion.
    Slap(Level),
}

pub open spec fn warmed(count: u32) -> u32 {
    if count == u32::MAX {
        count
    } else {
        (count + 1) as u32
    }
}

/// The motion stands out: the short average towers over the long one, and the
/// motion reaches the threshold.
pub open spec fn feels_like_slap(accel_threshold: Level, frame: AccelFrame) -> bool {
    let ratio = if (Level { bits: LEAST_AVERAGE }).lt_spec(frame.lta) {
        frame.quotient
    } else {
        Level { bits: ZERO }
    };
    (Level { bits: LEAST_RATIO }).lt_spec(ratio) && accel_threshold.le_spec(
        frame.motion.max_spec(frame.peak_motion),
    )
}

/// One reading: the detector after it, and what it leads to.
pub open spec fn accel_step(
    state: AccelState,
    accel_threshold: Level,
    cooldown_ms: u64,
    frame: AccelFrame,
) -> (AccelState, AccelAction) {
    let count = warmed(state.warmup_count);
    if !state.initialized {
        (AccelState { initialized: true, ..state }, AccelAction::Initialize)
    } else if count < WARMUP_SAMPLES {
        (
            AccelState { warmup_count: count, ..state },
            AccelAction::WarmUp(frame.lta.max_spec(frame.half_energy)),
        )
    } else if feels_like_slap(accel_threshold, frame) && is_due(
        state.cooldown.last as int,
        frame.now as int,
        cooldown_ms as int,
    ) {
        (
            AccelState {
                warmup_count: count,
                cooldown: Cooldown { last: frame.now as i128 },
                ..state
            },
            AccelAction::Slap(frame.motion.max_spec(frame.peak_motion)),
        )
    } else {
        (AccelState { warmup_count: count, ..state }, AccelAction::Watch)
    }
}

impl AccelState {
    pub fn new(now: u64) -> (state: AccelState)
        ensures
            !state.initialized,
            state.warmup_count == 0,
            state.cooldown.last == now - HEAD_START,
    {
        AccelState { initialized: false, warmup_count: 0, cooldown: Cooldown::new(now) }
    }

    /// Takes a reading.
    pub fn feel(&mut self, accel_threshold: Level, cooldown_ms: u64, frame: AccelFrame) -> (action:
        AccelAction)
        ensures
            (*final(self), action) == accel_step(*old(self), accel_threshold, cooldown_ms, frame),
    {
        if !self.initialized {
            self.initialized = true;
            return AccelAction::Initialize;
        }
        if self.warmup_count < u32::MAX {
            self.warmup_count = self.warmup_count + 1;
        }
        if self.warmup_count < WARMUP_SAMPLES {
            return AccelAction::WarmUp(frame.lta.max(frame.half_energy));
        }
        let ratio = if Level::from_bits(LEAST_AVERAGE).lt(frame.lta) {
            frame.quotient
        } else {
            Level::from_bits(ZERO)
        };
        let motion = frame.motion.max(frame.peak_motion);
        if Level::from_bits(LEAST_RATIO).lt(ratio) && accel_threshold.le(motion)
            && self.cooldown.due(frame.now, cooldown_ms) {
            self.cooldown = Cooldown { last: frame.now as i128 };
            return AccelAction::Slap(motion);
        }
        AccelAction::Watch
    }
}

pub open spec fn threshold_of(scaled: Level) -> Level {
    scaled.clamp_spec(Level { bits: LEAST_MOTION }, Level { bits: GREATEST_MOTION })
}

pub open spec fn intensity_of(scaled: Level) -> Level {
    scaled.clamp_spec(Level { bits: LEAST_INTENSITY }, Level { bits: ONE })
}

/// The threshold in g, out of the user's sensitivity scaled to g.
pub fn accel_threshold(scaled: Level) -> (threshold: Level)
    ensures
        threshold == threshold_of(scaled),
{
    scaled.clamp(Level::from_bits(LEAST_MOTION), Level::from_bits(GREATEST_MOTION))
}

/// The intensity of a slap, out of the logarithm of its motion scaled to the
/// range from zero to one.
pub fn motion_intensity(scaled: Level) -> (intensity: Level)
    ensures
        intensity == intensity_of(scaled),
{
    scaled.clamp(Level::from_bits(LEAST_INTENSITY), Level::from_bits(ONE))
}

// ── Laws of the detector ─────────────────────────────────────────────────

/// The detector after the first readings of a session.
pub open spec fn accel_run(
    state: AccelState,
    accel_threshold: Level,
    cooldown_ms: u64,
    frames: Seq<AccelFrame>,
    taken: nat,
) -> AccelState
    decreases taken,
{
    if taken == 0 {
        state
    } else {
        let at = (taken - 1) as nat;
        let before = accel_run(state, accel_threshold, cooldown_ms, frames, at);
        accel_step(before, accel_threshold, cooldown_ms, frames[at as int]).0
    }
}

/// The reading with that number is a slap.
pub open spec fn accel_hit(
    state: AccelState,
    accel_threshold: Level,
    cooldown_ms: u64,
    frames: Seq<AccelFrame>,
    at: int,
) -> bool {
    let before = accel_run(state, accel_threshold, cooldown_ms, frames, at as nat);
    accel_step(before, accel_threshold, cooldown_ms, frames[at]).1 is Slap
}

/// The clock of a session does not go back.
pub open spec fn in_time(frames: Seq<AccelFrame>) -> bool {
    forall|i: int, j: int|
        0 <= i <= j < frames.len() ==> (#[trigger] frames[i]).now <= (#[trigger] frames[j]).now
}

proof fn lemma_run_remembers(
    state: AccelState,
    accel_threshold: Level,
    cooldown_ms: u64,
    frames: Seq<AccelFrame>,
    at: int,
    taken: nat,
)
    requires
        cooldown_ms == 0 ==> in_time(frames),
        0 <= at < taken <= frames.len(),
        accel_hit(state, accel_threshold, cooldown_ms, frames, at),
    ensures
        accel_run(state, accel_threshold, cooldown_ms, frames, taken).cooldown.last
            >= frames[at].now,
    decreases taken,
{
    if at + 1 < taken {
        lemma_run_remembers(state, accel_threshold, cooldown_ms, frames, at, (taken - 1) as nat);
        if cooldown_ms == 0 {
            assert(frames[at].now <= frames[taken - 1].now);
        }
    }
}

/// Between two slaps lies at least the cooldown, whatever is felt. Only without a
/// cooldown does it take a clock that does not go back.
pub proof fn law_felt_slaps_keep_their_distance(
    state: AccelState,
    accel_threshold: Level,
    cooldown_ms: u64,
    frames: Seq<AccelFrame>,
    first: int,
    second: int,
)
    requires
        cooldown_ms == 0 ==> in_time(frames),
        0 <= first < second < frames.len(),
        accel_hit(state, accel_threshold, cooldown_ms, frames, first),
        accel_hit(state, accel_threshold, cooldown_ms, frames, second),
    ensures
        frames[second].now - frames[first].now >= cooldown_ms * NANOS_PER_MILLI,
{
    lemma_run_remembers(state, accel_threshold, cooldown_ms, frames, first, second as nat);
    if cooldown_ms == 0 {
        assert(frames[first].now <= frames[second].now);
    }
}

proof fn lemma_run_counts(
    state: AccelState,
    accel_threshold: Level,
    cooldown_ms: u64,
    frames: Seq<AccelFrame>,
    taken: nat,
)
    requires
        !state.initialized,
        state.warmup_count == 0,
        taken <= frames.len(),
        taken <= WARMUP_SAMPLES,
    ensures
        ({
            let after = accel_run(state, accel_threshold, cooldown_ms, frames, taken);
            &&& taken == 0 ==> after == state
            &&& taken > 0 ==> after.initialized && after.warmup_count == taken - 1
        }),
    decreases taken,
{
    if taken > 0 {
        lemma_run_counts(state, accel_threshold, cooldown_ms, frames, (taken - 1) as nat);
    }
}

/// Nothing is a slap before the averages have settled.
pub proof fn law_warm_up_is_silent(
    state: AccelState,
    accel_threshold: Level,
    cooldown_ms: u64,
    frames: Seq<AccelFrame>,
    at: int,
)
    requires
        !state.initialized,
        state.warmup_count == 0,
        0 <= at < frames.len(),
        at < WARMUP_SAMPLES,
    ensures
        !accel_hit(state, accel_threshold, cooldown_ms, frames, at),
{
    lemma_run_counts(state, accel_threshold, cooldown_ms, frames, at as nat);
}

/// The threshold lies in its range whatever the user's sensitivity is, a NaN
/// excepted.
pub proof fn law_threshold_in_range(scaled: Level)
    requires
        !scaled.is_nan_spec(),
    ensures
        (Level { bits: LEAST_MOTION }).le_spec(threshold_of(scaled)),
        threshold_of(scaled).le_spec(Level { bits: GREATEST_MOTION }),
{
    law_clamp(scaled, Level { bits: LEAST_MOTION }, Level { bits: GREATEST_MOTION });
}

/// A slap has a motion that is a number, reaches the threshold and is never below
/// the least one, whatever the user's sensitivity is: with a NaN for it nothing is
/// a slap. So the logarithm of its motion is one of a positive number.
pub proof fn law_felt_slaps_reach_the_threshold(
    state: AccelState,
    scaled: Level,
    cooldown_ms: u64,
    frame: AccelFrame,
)
    ensures
        accel_step(state, threshold_of(scaled), cooldown_ms, frame).1 matches AccelAction::Slap(
            motion,
        ) ==> {
            &&& threshold_of(scaled).le_spec(motion)
            &&& (Level { bits: LEAST_MOTION }).le_spec(motion)
            &&& (Level { bits: LEAST_RATIO }).lt_spec(frame.quotient)
            &&& (Level { bits: LEAST_AVERAGE }).lt_spec(frame.lta)
        },
{
    law_clamp(scaled, Level { bits: LEAST_MOTION }, Level { bits: GREATEST_MOTION });
}

/// The intensity of a slap lies in its range, whatever number the logarithm is.
pub proof fn law_motion_intensity_in_range(scaled: Level)
    requires
        !scaled.is_nan_spec(),
    ensures
        (Level { bits: LEAST_INTENSITY }).le_spec(intensity_of(scaled)),
        intensity_of(scaled).le_spec(Level { bits: ONE }),
{
    law_clamp(scaled, Level { bits: LEAST_INTENSITY }, Level { bits: ONE });
}

// ── Reports of sensors ───────────────────────────────────────────────

/// The sixteen bit two's complement number in two bytes, the low byte first.
pub open spec fn short_at(bytes: Seq<u8>, at: int) -> int {
    let unsigned = bytes[at] + bytes[at + 1] * 256;
    if unsigned >= 0x8000 {
        unsigned - 0x1_0000
    } else {
        unsigned
    }
}

/// The thirty-two bit two's complement number in four bytes, the low byte first.
pub open spec fn long_at(bytes: Seq<u8>, at: int) -> int {
    let unsigned = bytes[at] + bytes[at + 1] * 256 + bytes[at + 2] * 0x1_0000 + bytes[at + 3]
        * 0x100_0000;
    if unsigned >= 0x8000_0000 {
        unsigned - 0x1_0000_0000
    } else {
        unsigned
    }
}

fn read_short(bytes: &[u8], at: usize) -> (value: i16)
    requires
        at + 2 <= bytes@.len(),
    ensures
        value == short_at(bytes@, at as int),
{
    let unsigned: i32 = bytes[at] as i32 + bytes[at + 1] as i32 * 256;
    if unsigned >= 0x8000 {
        (unsigned - 0x1_0000) as i16
    } else {
        unsigned as i16
    }
}

fn read_long(bytes: &[u8], at: usize) -> (value: i32)
    requires
        at + 4 <= bytes@.len(),
    ensures
        value == long_at(bytes@, at as int),
{
    let unsigned: i64 = bytes[at] as i64 + bytes[at + 1] as i64 * 256 + bytes[at + 2] as i64
        * 0x1_0000 + bytes[at + 3] as i64 * 0x100_0000;
    if unsigned >= 0x8000_0000 {
        (unsigned - 0x1_0000_0000) as i32
    } else {
        unsigned as i32
    }
}

/// The reports that a sensor is asked for, one after the other, until one can be
/// decoded.
pub fn sensor_report_ids() -> (ids: [u8; 3])
    ensures
        ids@ == seq![1u8, 0u8, 2u8],
{
    [1, 0, 2]
}

/// The least length of a sensor's report: its number, and two bytes for each of
/// three axes. Shorter reports come from keyboards and the like.
pub const SENSOR_REPORT_LENGTH: usize = 7;

/// The three axes in a sensor's report, in 1/16384 g.
pub fn decode_sensor_sample(report: &[u8]) -> (sample: Option<[i16; 3]>)
    ensures
        match sample {
            Some(axes) => report@.len() >= SENSOR_REPORT_LENGTH && forall|i: int|
                0 <= i < 3 ==> #[trigger] axes@[i] == short_at(report@, 1 + 2 * i),
            None => report@.len() < SENSOR_REPORT_LENGTH,
        },
{
    if report.len() < SENSOR_REPORT_LENGTH {
        return None;
    }
    let x: i16 = read_short(report, 1);
    let y: i16 = read_short(report, 3);
    let z: i16 = read_short(report, 5);
    Some([x, y, z])
}

/// The least length of a report of the motion unit.
pub const IMU_REPORT_LENGTH: usize = 22;

/// Where the axes begin in a report of the motion unit.
pub const IMU_DATA_OFFSET: usize = 6;

/// The three axes in a report of the motion unit, in 1/65536 g.
pub fn decode_imu_report(report: &[u8]) -> (sample: Option<[i32; 3]>)
    ensures
        match sample {
            Some(axes) => report@.len() >= IMU_REPORT_LENGTH && forall|i: int|
                0 <= i < 3 ==> #[trigger] axes@[i] == long_at(report@, IMU_DATA_OFFSET + 4 * i),
            None => report@.len() < IMU_REPORT_LENGTH,
        },
{
    if report.len() < IMU_REPORT_LENGTH {
        return None;
    }
    let x: i32 = read_long(report, IMU_DATA_OFFSET);
    let y: i32 = read_long(report, IMU_DATA_OFFSET + 4);
    let z: i32 = read_long(report, IMU_DATA_OFFSET + 8);
    Some([x, y, z])
}

/// What the motion unit has reported since it was last read.
#[derive(Debug, Clone, Copy)]
pub struct SpuReadings {
    pub latest: [i32; 3],
    pub peak_motion: Level,
    pub has_data: bool,
}

impl SpuReadings {
    pub fn new() -> (readings: SpuReadings)
        ensures
            !readings.has_data,
            readings.latest@ == seq![0i32, 0i32, 0i32],
            readings.peak_motion == (Level { bits: ZERO }),
    {
        SpuReadings { latest: [0, 0, 0], peak_motion: Level::from_bits(ZERO), has_data: false }
    }

    /// Takes a report; `delta` is its distance from the report before.
    pub fn report(&mut self, sample: [i32; 3], delta: Level)
        ensures
            final(self).has_data,
            final(self).latest == sample,
            final(self).peak_motion == if old(self).has_data {
                old(self).peak_motion.max_spec(delta)
            } else {
                old(self).peak_motion
            },
    {
        if self.has_data {
            self.peak_motion = self.peak_motion.max(delta);
        }
        self.latest = sample;
        self.has_data = true;
    }

    /// The latest sample and the greatest motion, which then starts again from
    /// nothing.
    pub fn read(&mut self) -> (reading: Option<([i32; 3], Level)>)
        ensures
            reading == if old(self).has_data {
                Some((old(self).latest, old(self).peak_motion))
            } else {
                None
            },
            *final(self) == if old(self).has_data {
                (SpuReadings { peak_motion: Level { bits: ZERO }, ..*old(self) })
            } else {
                *old(self)
            },
    {
        if !self.has_data {
            return None;
        }
        let reading = (self.latest, self.peak_motion);
        self.peak_motion = Level::from_bits(ZERO);
        Some(reading)
    }
}

/// The usage page and the usage of the motion unit's accelerometer.
pub const IMU_USAGE_PAGE: u32 = 0xff00;

pub const IMU_USAGE: u32 = 3;

/// Whether a service of the motion unit is its accelerometer.
pub fn is_accel_service(page: Option<u32>, usage: Option<u32>) -> (accelerometer: bool)
    ensures
        accelerometer == (page == Some(IMU_USAGE_PAGE) && usage == Some(IMU_USAGE)),
{
    match (page, usage) {
        (Some(page), Some(usage)) => page == IMU_USAGE_PAGE && usage == IMU_USAGE,
        _ => false,
    }
}

// ── Finding a sensor ─────────────────────────────────────────────────

/// A device that may be a sensor.
pub struct HidEntry {
    pub product: Option<String>,
    pub manufacturer: Option<String>,
    pub usage_page: u16,
}

/// The (lower case) text mentions a motion sensor.
pub open spec fn mentions_sensor(text: Seq<char>) -> bool {
    occurs(text, "accelerometer"@) || occurs(text, "motion sensor"@) || occurs(text, "imu"@)
}

/// The device is on a page for sensors, or calls itself one.
pub open spec fn is_candidate(device: HidEntry) -> bool {
    device.usage_page == 0x20 || device.usage_page == 0xff00 || mentions_sensor(
        lowered(text_or_empty(device.product)),
    ) || mentions_sensor(lowered(text_or_empty(device.manufacturer)))
}

fn names_sensor(text: &Vec<char>) -> (sensor: bool)
    ensures
        sensor == mentions_sensor(text@),
{
    contains(text, "accelerometer") || contains(text, "motion sensor") || contains(text, "imu")
}

/// Whether a device is worth opening.
pub fn is_sensor_candidate(device: &HidEntry) -> (candidate: bool)
    ensures
        candidate == is_candidate(*device),
{
    if device.usage_page == 0x20 || device.usage_page == 0xff00 {
        return true;
    }
    names_sensor(&lower_or_empty(&device.product)) || names_sensor(
        &lower_or_empty(&device.manufacturer),
    )
}

/// The places of the devices that are worth opening.
pub open spec fn candidates(devices: Seq<HidEntry>) -> Seq<int>
    decreases devices.len(),
{
    if devices.len() == 0 {
        Seq::empty()
    } else {
        let earlier = candidates(devices.drop_last());
        if is_candidate(devices.last()) {
            earlier.push(devices.len() - 1)
        } else {
            earlier
        }
    }
}

/// The places of the devices that are worth opening, in the order of the devices.
pub fn sensor_candidates(devices: &Vec<HidEntry>) -> (places: Vec<usize>)
    ensures
        places@.map_values(|place: usize| place as int) == candidates(devices@),
{
    let mut places: Vec<usize> = Vec::new();
    let mut i: usize = 0;
    assert(places@.map_values(|place: usize| place as int) == candidates(devices@.take(0)));
    while i < devices.len()
        invariant
            i <= devices@.len(),
            places@.map_values(|place: usize| place as int) == candidates(
                devices@.take(i as int),
            ),
        decreases devices.len() - i,
    {
        proof {
            assert(devices@.take(i + 1).drop_last() == devices@.take(i as int));
            assert(devices@.take(i + 1).last() == devices@[i as int]);
            assert(places@.push(i).map_values(|place: usize| place as int) == places@.map_values(
                |place: usize| place as int,
            ).push(i as int));
        }
        if is_sensor_candidate(&devices[i]) {
            places.push(i);
        }
        i += 1;
    }
    assert(devices@.take(devices@.len() as int) == devices@);
    places
}

/// The weight at rest that a sensor has to show, in g: more than 0.7 and less
/// than 1.5.
pub const LEAST_REST: u32 = 0x3f33_3333;

pub const GREATEST_REST: u32 = 0x3fc0_0000;

/// Whether a device that was sampled twice is a sensor: it feels gravity, and its
/// samples jitter. `magnitude` is that of the first sample.
pub fn is_live_sensor(magnitude: Level, first: [i16; 3], second: [i16; 3]) -> (live: bool)
    ensures
        live == ((Level { bits: LEAST_REST }).lt_spec(magnitude) && magnitude.lt_spec(
            Level { bits: GREATEST_REST },
        ) && first@ != second@),
{
    let changed = first[0] != second[0] || first[1] != second[1] || first[2] != second[2];
    proof {
        if !changed {
            assert(first@ =~= second@);
        }
    }
    Level::from_bits(LEAST_REST).lt(magnitude) && magnitude.lt(Level::from_bits(GREATEST_REST))
        && changed
}

/// A device of the industrial I/O subsystem, by the axes that can be read.
pub struct IioEntry {
    pub has_x: bool,
    pub has_y: bool,
    pub has_z: bool,
}

pub open spec fn has_all_axes(entry: IioEntry) -> bool {
    entry.has_x && entry.has_y && entry.has_z
}

/// The first device that has all three axes.
pub fn discover_linux_iio_sensor(entries: &Vec<IioEntry>) -> (found: Option<usize>)
    ensures
        match found {
            Some(at) => at < entries@.len() && has_all_axes(entries@[at as int]) && forall|i: int|
                0 <= i < at ==> !has_all_axes(#[trigger] entries@[i]),
            None => forall|i: int|
                0 <= i < entries@.len() ==> !has_all_axes(#[trigger] entries@[i]),
        },
{
    let mut at: usize = 0;
    while at < entries.len()
        invariant
            at <= entries@.len(),
            forall|i: int| 0 <= i < at ==> !has_all_axes(#[trigger] entries@[i]),
        decreases entries.len() - at,
    {
        let entry = &entries[at];
        if entry.has_x && entry.has_y && entry.has_z {
            return Some(at);
        }
        at += 1;
    }
    None
}

/// The scale of a device that does not tell its own: 0.009576.
pub const USUAL_SCALE: u32 = 0x3c1c_e4a8;

/// The scale that a device tells, or the usual one.
pub fn iio_scale(told: Option<Level>) -> (scale: Level)
    ensures
        scale == match told {
            Some(scale) => scale,
            None => Level { bits: USUAL_SCALE },
        },
{
    match told {
        Some(scale) => scale,
        None => Level::from_bits(USUAL_SCALE),
    }
}

/// Where acceleration is read from.
#[derive(Debug, Clone, Copy, PartialEq, Eq, Structural)]
pub enum AccelBackend {
    AppleSilicon,
    LinuxIio,
    GenericHid,
}

/// The sensors that were found: the motion unit, a device of the industrial I/O
/// subsystem, a device that reports as a sensor.
#[derive(Debug, Clone, Copy, PartialEq, Eq, Structural)]
pub struct FoundSensors {
    pub spu: bool,
    pub iio: bool,
    pub hid: bool,
}

pub open spec fn backend(platform: Platform, found: FoundSensors) -> Option<AccelBackend> {
    if platform == Platform::MacOs {
        if found.spu {
            Some(AccelBackend::AppleSilicon)
        } else {
            None
        }
    } else if platform == Platform::Linux && found.iio {
        Some(AccelBackend::LinuxIio)
    } else if found.hid {
        Some(AccelBackend::GenericHid)
    } else {
        None
    }
}

/// The sensor to read from: on macOS the motion unit and nothing else; on Linux
/// industrial I/O before the rest; elsewhere a device that reports as a sensor.
pub fn discover_accel_backend(platform: Platform, found: FoundSensors) -> (chosen: Option<
    AccelBackend,
>)
    ensures
        chosen == backend(platform, found),
{
    match platform {
        Platform::MacOs => if found.spu {
            Some(AccelBackend::AppleSilicon)
        } else {
            None
        },
        _ => if platform == Platform::Linux && found.iio {
            Some(AccelBackend::LinuxIio)
        } else if found.hid {
            Some(AccelBackend::GenericHid)
        } else {
            None
        },
    }
}

/// Whether there is a sensor to read from.
pub fn accelerometer_available(platform: Platform, found: FoundSensors) -> (available: bool)
    ensures
        available == (backend(platform, found) is Some),
{
    match discover_accel_backend(platform, found) {
        Some(_) => true,
        None => false,
    }
}

// ── Laws: what is felt, and what is not ──────────────────────────────

/// What is a slap and what is not: past the warm-up, exactly the readings a whole
/// cooldown after the last slap whose long average is more than next to nothing,
/// whose quotient exceeds the least ratio, and whose motion or peak motion reaches
/// the threshold. The slap has the greater of the two motions.
pub proof fn law_just_such_readings_are_slaps(
    state: AccelState,
    accel_threshold: Level,
    cooldown_ms: u64,
    frame: AccelFrame,
)
    ensures
        ({
            let action = accel_step(state, accel_threshold, cooldown_ms, frame).1;
            &&& action is Slap <==> {
                &&& state.initialized
                &&& state.warmup_count + 1 >= WARMUP_SAMPLES
                &&& cooldown_ms == 0 || frame.now - state.cooldown.last >= cooldown_ms * 1_000_000
                &&& (Level { bits: LEAST_AVERAGE }).lt_spec(frame.lta)
                &&& (Level { bits: LEAST_RATIO }).lt_spec(frame.quotient)
                &&& accel_threshold.le_spec(frame.motion) || accel_threshold.le_spec(
                    frame.peak_motion,
                )
            }
            &&& action matches AccelAction::Slap(motion) ==> {
                &&& motion == frame.motion || motion == frame.peak_motion
                &&& !motion.lt_spec(frame.motion) && !motion.lt_spec(frame.peak_motion)
            }
        }),
{
    if !(Level { bits: LEAST_AVERAGE }).lt_spec(frame.lta) {
        assert(!(Level { bits: LEAST_RATIO }).lt_spec(Level { bits: ZERO }));
    }
}

/// The first reading fills the filter, the readings of the warm-up raise the long
/// average to at least half of their energy, and the rest are slaps or nothing.
pub proof fn law_readings_in_their_turn(
    state: AccelState,
    accel_threshold: Level,
    cooldown_ms: u64,
    frame: AccelFrame,
)
    ensures
        ({
            let (after, action) = accel_step(state, accel_threshold, cooldown_ms, frame);
            let warming = state.initialized && state.warmup_count + 1 < WARMUP_SAMPLES;
            &&& action is Initialize <==> !state.initialized
            &&& action is WarmUp <==> warming
            &&& action matches AccelAction::WarmUp(lta) ==> {
                &&& lta == frame.lta || lta == frame.half_energy
                &&& !lta.lt_spec(frame.lta) && !lta.lt_spec(frame.half_energy)
            }
            &&& after.initialized
            &&& !state.initialized ==> after.warmup_count == state.warmup_count
            &&& state.initialized && state.warmup_count < u32::MAX ==> after.warmup_count
                == state.warmup_count + 1
            &&& state.warmup_count == u32::MAX ==> after.warmup_count == u32::MAX
            &&& action is Slap ==> after.cooldown.last == frame.now
            &&& !(action is Slap) ==> after.cooldown == state.cooldown
        }),
{
}

/// A threshold or an intensity in its range stays; one outside goes to the nearer
/// end.
pub proof fn law_scales_have_ends(scaled: Level)
    ensures
        (Level { bits: LEAST_MOTION }).le_spec(scaled) && scaled.le_spec(
            Level { bits: GREATEST_MOTION },
        ) ==> threshold_of(scaled) == scaled,
        scaled.lt_spec(Level { bits: LEAST_MOTION }) ==> threshold_of(scaled) == (Level {
            bits: LEAST_MOTION,
        }),
        (Level { bits: GREATEST_MOTION }).lt_spec(scaled) ==> threshold_of(scaled) == (Level {
            bits: GREATEST_MOTION,
        }),
        (Level { bits: LEAST_INTENSITY }).le_spec(scaled) && scaled.le_spec(Level { bits: ONE })
            ==> intensity_of(scaled) == scaled,
        scaled.lt_spec(Level { bits: LEAST_INTENSITY }) ==> intensity_of(scaled) == (Level {
            bits: LEAST_INTENSITY,
        }),
        (Level { bits: ONE }).lt_spec(scaled) ==> intensity_of(scaled) == (Level { bits: ONE }),
{
}

/// Reading a number gives back what was written: the low byte first, a negative
/// number in two's complement.
pub proof fn law_numbers_are_read_back(bytes: Seq<u8>, at: int, short: i16, long: i32)
    requires
        0 <= at,
        at + 4 <= bytes.len(),
    ensures
        bytes[at] == short as int % 256 && bytes[at + 1] == short as int / 256 % 256 ==> short_at(
            bytes,
            at,
        ) == short,
        bytes[at] == long as int % 256 && bytes[at + 1] == long as int / 256 % 256 && bytes[at + 2]
            == long as int / 0x1_0000 % 256 && bytes[at + 3] == long as int / 0x100_0000 % 256
            ==> long_at(bytes, at) == long,
{
}

/// A device is worth opening where it is on one of the two pages for sensors, or
/// where its product or its manufacturer, in lower case, mentions one of the three
/// words; and nowhere else.
pub proof fn law_signs_of_a_sensor(device: HidEntry)
    ensures
        is_candidate(device) <==> {
            let product = lowered(text_or_empty(device.product));
            let manufacturer = lowered(text_or_empty(device.manufacturer));
            ||| device.usage_page == 0x20
            ||| device.usage_page == 0xff00
            ||| occurs(product, "accelerometer"@) || occurs(manufacturer, "accelerometer"@)
            ||| occurs(product, "motion sensor"@) || occurs(manufacturer, "motion sensor"@)
            ||| occurs(product, "imu"@) || occurs(manufacturer, "imu"@)
        },
{
}

/// The places of the devices worth opening are found, each of them and no others,
/// in ascending order.
pub proof fn law_candidates_are_found_in_order(devices: Seq<HidEntry>)
    ensures
        forall|place: int| #[trigger]
            candidates(devices).contains(place) <==> 0 <= place < devices.len() && is_candidate(
                devices[place],
            ),
        forall|i: int, j: int|
            0 <= i < j < candidates(devices).len() ==> #[trigger] candidates(devices)[i]
                < #[trigger] candidates(devices)[j],
    decreases devices.len(),
{
    let found = candidates(devices);
    if devices.len() > 0 {
        let rest = devices.drop_last();
        let earlier = candidates(rest);
        law_candidates_are_found_in_order(rest);
        assert forall|i: int| 0 <= i < earlier.len() implies 0 <= #[trigger] earlier[i] < rest.len() by {
            assert(earlier.contains(earlier[i]));
        }
        assert forall|place: int| #[trigger] found.contains(place) <==> 0 <= place < devices.len()
            && is_candidate(devices[place]) by {
            if found.contains(place) {
                let i = choose|i: int| 0 <= i < found.len() && found[i] == place;
                if i < earlier.len() {
                    assert(earlier.contains(earlier[i]));
                    assert(rest[place] == devices[place]);
                }
            }
            if 0 <= place < devices.len() && is_candidate(devices[place]) {
                if place < rest.len() {
                    assert(rest[place] == devices[place]);
                    assert(earlier.contains(place));
                    let i = choose|i: int| 0 <= i < earlier.len() && earlier[i] == place;
                    assert(found[i] == place);
                } else {
                    assert(found[earlier.len() as int] == place);
                }
            }
        }
        assert forall|i: int, j: int| 0 <= i < j < found.len() implies #[trigger] found[i]
            < #[trigger] found[j] by {
            assert(found[i] == earlier[i]);
            if j < earlier.len() {
                assert(found[j] == earlier[j]);
            }
        }
    }
}

/// A device of the industrial I/O subsystem serves only with all three axes.
pub proof fn law_three_axes_are_needed(entry: IioEntry)
    ensures
        has_all_axes(entry) <==> !(!entry.has_x || !entry.has_y || !entry.has_z),
{
}

/// Where acceleration is read from, platform by platform: only macOS has the motion
/// unit, and it has nothing else; only Linux has industrial I/O, and prefers it.
pub proof fn law_sensors_by_platform(found: FoundSensors)
    ensures
        backend(Platform::MacOs, found) is Some <==> found.spu,
        backend(Platform::MacOs, found) matches Some(chosen) ==> chosen
            == AccelBackend::AppleSilicon,
        backend(Platform::Linux, found) is Some <==> found.iio || found.hid,
        found.iio ==> backend(Platform::Linux, found) == Some(AccelBackend::LinuxIio),
        !found.iio && found.hid ==> backend(Platform::Linux, found) == Some(
            AccelBackend::GenericHid,
        ),
        backend(Platform::Windows, found) is Some <==> found.hid,
        backend(Platform::Other, found) is Some <==> found.hid,
        found.hid ==> backend(Platform::Windows, found) == Some(AccelBackend::GenericHid)
            && backend(Platform::Other, found) == Some(AccelBackend::GenericHid),
{
}

/// The bounds in numbers: thirty samples of warm-up, five times an average of at
/// least a millionth, motion between 0.04 and 0.3, an intensity of at least 0.15,
/// rest between 0.7 and 1.5, a scale of 0.009576, and the layout of the reports.
pub proof fn law_the_bounds_in_numbers()
    ensures
        WARMUP_SAMPLES == 30,
        LEAST_RATIO == 0x40a0_0000,
        LEAST_AVERAGE == 0x3586_37bd,
        LEAST_MOTION == 0x3d23_d70a,
        GREATEST_MOTION == 0x3e99_999a,
        LEAST_INTENSITY == 0x3e19_999a,
        LEAST_REST == 0x3f33_3333,
        GREATEST_REST == 0x3fc0_0000,
        USUAL_SCALE == 0x3c1c_e4a8,
        SENSOR_REPORT_LENGTH == 7,
        IMU_REPORT_LENGTH == 22,
        IMU_DATA_OFFSET == 6,
        IMU_USAGE_PAGE == 0xff00,
        IMU_USAGE == 3,
{
}

} // verus!
