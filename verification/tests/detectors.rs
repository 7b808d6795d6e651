use meme_machine::accelerometer::{
    accel_threshold, accelerometer_available, decode_imu_report, decode_sensor_sample,
    discover_accel_backend, discover_linux_iio_sensor, iio_scale, is_accel_service, is_live_sensor,
    is_sensor_candidate, motion_intensity, sensor_candidates, sensor_report_ids, AccelAction,
    AccelBackend, AccelFrame, AccelState, FoundSensors, HidEntry, IioEntry, SpuReadings,
};
use meme_machine::cooldown::Cooldown;
use meme_machine::detector::{
    Build, DetectionMode, DetectorAction, DetectorCmd, DetectorControl, DetectorEvent,
};
use meme_machine::level::Level;
use meme_machine::microphone::{slap_intensity, MicFrame, MicPeak, MicState};
use meme_machine::ports::Platform;

const SECOND: u64 = 1_000_000_000;

fn level(value: f32) -> Level {
    Level::from_bits(value.to_bits())
}

fn number(level: Level) -> f32 {
    f32::from_bits(level.bits)
}

#[test]
fn cooldowns() {
    let fresh = Cooldown::new(5 * SECOND);
    assert!(fresh.due(5 * SECOND, 10_000));
    assert!(!fresh.due(5 * SECOND, 10_001));
    let spent = Cooldown { last: SECOND as i128 };
    assert!(!spent.due(SECOND + 1_999_999, 2));
    assert!(spent.due(SECOND + 2_000_000, 2));
    assert!(spent.due(0, 0));
    assert!(!spent.due(0, 1));
}

/// Lets the detector hear a buffer of the given loudness, as a caller would.
fn hear(state: &mut MicState, now: u64, rms: f32, peak: f32) -> bool {
    let floor = number(state.noise_floor);
    let frame = MicFrame {
        now,
        rms: level(rms),
        raised: level(rms * 1.5),
        quiet_bound: level(floor * 2.5),
        blended: level(floor * 0.997 + rms * 0.003),
    };
    if !state.hear(frame) {
        return false;
    }
    let bounds = MicPeak {
        loud_bound: level(number(state.noise_floor) * 3.0),
        crest: level(peak / rms),
    };
    state.strike(level(0.15), 2000, now, level(rms), bounds)
}

fn calibrated(start: u64) -> MicState {
    let mut state = MicState::new(level(0.01), start);
    for _ in 0..20 {
        assert!(!hear(&mut state, start, 0.9, 9.0));
        state.noise_floor = level(0.01);
    }
    state
}

#[test]
fn calibration_is_silent_and_learns() {
    let mut state = MicState::new(level(0.01), 0);
    assert!(!hear(&mut state, 0, 0.2, 2.0));
    assert_eq!(number(state.noise_floor), 0.2 * 1.5);
    assert_eq!(state.callbacks_seen, 1);
    let mut quiet = MicState::new(level(0.0), 0);
    assert!(!hear(&mut quiet, 0, 0.0, 0.0));
    assert_eq!(number(quiet.noise_floor), 0.005);
}

#[test]
fn slaps_are_loud_and_short() {
    let mut state = calibrated(0);
    assert!(!hear(&mut state, 1, 0.1, 1.0));
    assert!(!hear(&mut state, 2, 0.3, 0.6));
    assert!(hear(&mut state, 3, 0.3, 1.0));
    assert_eq!(state.cooldown.last, 3);
    assert_eq!(state.suppress_until, 3 + 2 * SECOND as u128);
}

#[test]
fn slaps_keep_their_distance() {
    let mut state = calibrated(0);
    assert!(hear(&mut state, SECOND, 0.3, 1.0));
    let floor = state.noise_floor;
    assert!(!hear(&mut state, 3 * SECOND - 1, 0.3, 1.0));
    assert_eq!(state.noise_floor, floor);
    assert!(hear(&mut state, 3 * SECOND, 0.3, 1.0));
}

#[test]
fn noise_raises_the_floor() {
    let mut state = calibrated(0);
    assert!(!hear(&mut state, 1, 0.02, 1.0));
    assert_eq!(number(state.noise_floor), 0.01f32 * 0.997 + 0.02 * 0.003);
    state.noise_floor = level(0.005);
    assert!(!hear(&mut state, 2, 0.0, 0.0));
    assert_eq!(number(state.noise_floor), 0.005);
    state.noise_floor = level(0.2);
    assert!(!hear(&mut state, 3, 0.5, 5.0));
}

#[test]
fn silence_has_no_crest() {
    let mut state = calibrated(0);
    let bounds = MicPeak { loud_bound: level(0.0), crest: level(100.0) };
    assert!(!state.strike(level(0.0), 0, 1, level(0.0001), bounds));
    assert!(state.strike(level(0.0), 0, 1, level(0.0002), bounds));
    assert_eq!(number(slap_intensity(level(0.6))), 0.6);
    assert_eq!(number(slap_intensity(level(1.6))), 1.0);
    assert_eq!(number(slap_intensity(level(f32::NAN))), 1.0);
    assert_eq!(number(slap_intensity(level(f32::INFINITY))), 1.0);
}

fn frame(now: u64, quotient: f32, motion: f32, peak_motion: f32) -> AccelFrame {
    AccelFrame {
        now,
        lta: level(0.01),
        half_energy: level(0.02),
        quotient: level(quotient),
        motion: level(motion),
        peak_motion: level(peak_motion),
    }
}

fn warm() -> AccelState {
    let mut state = AccelState::new(0);
    assert_eq!(state.feel(level(0.1), 1000, frame(0, 99.0, 9.0, 9.0)), AccelAction::Initialize);
    for _ in 0..29 {
        assert_eq!(
            state.feel(level(0.1), 1000, frame(0, 99.0, 9.0, 9.0)),
            AccelAction::WarmUp(level(0.02))
        );
    }
    state
}

#[test]
fn warm_up_is_silent() {
    let mut state = warm();
    assert_eq!(state.warmup_count, 29);
    assert_eq!(state.feel(level(0.1), 1000, frame(0, 99.0, 9.0, 0.0)), AccelAction::Slap(level(9.0)));
}

#[test]
fn felt_slaps() {
    let mut state = warm();
    assert_eq!(state.feel(level(0.1), 1000, frame(1, 5.0, 1.0, 0.0)), AccelAction::Watch);
    assert_eq!(state.feel(level(0.1), 1000, frame(1, 6.0, 0.09, 0.0)), AccelAction::Watch);
    assert_eq!(state.feel(level(0.1), 1000, frame(1, 6.0, 0.01, 0.1)), AccelAction::Slap(level(0.1)));
    assert_eq!(state.feel(level(0.1), 1000, frame(SECOND, 6.0, 1.0, 0.0)), AccelAction::Watch);
    assert_eq!(
        state.feel(level(0.1), 1000, frame(SECOND + 1, 6.0, 1.0, 0.0)),
        AccelAction::Slap(level(1.0))
    );
    let still = AccelFrame { lta: level(0.000_001), ..frame(9 * SECOND, 6.0, 1.0, 0.0) };
    assert_eq!(state.feel(level(0.1), 1000, still), AccelAction::Watch);
}

#[test]
fn nothing_is_felt_with_a_threshold_that_is_no_number() {
    let mut state = warm();
    let threshold = accel_threshold(level(f32::NAN));
    assert_eq!(state.feel(threshold, 0, frame(1, 99.0, 9.0, 9.0)), AccelAction::Watch);
    let threshold = accel_threshold(level(-1.0));
    assert_eq!(state.feel(threshold, 0, frame(1, 99.0, 0.03, 0.03)), AccelAction::Watch);
    assert_eq!(state.feel(threshold, 0, frame(1, 99.0, 0.04, 0.0)), AccelAction::Slap(level(0.04)));
}

#[test]
fn clocks_that_go_back_bring_no_slap() {
    let mut state = calibrated(0);
    assert!(hear(&mut state, 9 * SECOND, 0.3, 1.0));
    state.suppress_until = 0;
    assert!(!hear(&mut state, SECOND, 0.3, 1.0));
}

#[test]
fn thresholds_and_intensities_are_clamped() {
    assert_eq!(number(accel_threshold(level(0.01))), 0.04);
    assert_eq!(number(accel_threshold(level(0.2))), 0.2);
    assert_eq!(number(accel_threshold(level(0.9))), 0.30);
    assert_eq!(number(motion_intensity(level(-3.0))), 0.15);
    assert_eq!(number(motion_intensity(level(0.5))), 0.5);
    assert_eq!(number(motion_intensity(level(2.0))), 1.0);
}

#[test]
fn sensor_reports() {
    let report = [1, 0x00, 0x40, 0xff, 0xff, 0x00, 0x80, 7];
    assert_eq!(decode_sensor_sample(&report), Some([16384, -1, -32768]));
    assert_eq!(decode_sensor_sample(&report[..6]), None);
    assert_eq!(decode_sensor_sample(&[]), None);
    assert_eq!(sensor_report_ids(), [1, 0, 2]);
    let mut report = [0u8; 22];
    report[6..10].copy_from_slice(&(-65536i32).to_le_bytes());
    report[10..14].copy_from_slice(&i32::MAX.to_le_bytes());
    report[14..18].copy_from_slice(&i32::MIN.to_le_bytes());
    assert_eq!(decode_imu_report(&report), Some([-65536, i32::MAX, i32::MIN]));
    assert_eq!(decode_imu_report(&report[..21]), None);
}

#[test]
fn the_motion_unit_is_read_once() {
    let mut readings = SpuReadings::new();
    assert!(readings.read().is_none());
    readings.report([1, 2, 3], level(7.0));
    assert_eq!(readings.read(), Some(([1, 2, 3], level(0.0))));
    readings.report([4, 5, 6], level(0.5));
    readings.report([7, 8, 9], level(0.25));
    assert_eq!(readings.read(), Some(([7, 8, 9], level(0.5))));
    assert_eq!(readings.read(), Some(([7, 8, 9], level(0.0))));
    assert!(is_accel_service(Some(0xff00), Some(3)));
    assert!(!is_accel_service(Some(0xff00), Some(4)));
    assert!(!is_accel_service(None, Some(3)));
}

fn hid(product: Option<&str>, usage_page: u16) -> HidEntry {
    HidEntry { product: product.map(|text| text.to_string()), manufacturer: None, usage_page }
}

#[test]
fn sensor_search() {
    assert!(is_sensor_candidate(&hid(None, 0x20)));
    assert!(is_sensor_candidate(&hid(None, 0xff00)));
    assert!(is_sensor_candidate(&hid(Some("3-Axis Accelerometer"), 1)));
    assert!(!is_sensor_candidate(&hid(Some("Keyboard"), 1)));
    let maker = HidEntry { manufacturer: Some("IMU Corp".to_string()), ..hid(None, 1) };
    assert!(is_sensor_candidate(&maker));
    assert_eq!(sensor_candidates(&vec![hid(None, 1), maker, hid(None, 2), hid(None, 0x20)]), vec![1, 3]);
    assert!(is_live_sensor(level(1.0), [1, 2, 3], [1, 2, 4]));
    assert!(!is_live_sensor(level(1.0), [1, 2, 3], [1, 2, 3]));
    assert!(!is_live_sensor(level(0.7), [1, 2, 3], [1, 2, 4]));
    assert!(!is_live_sensor(level(1.5), [1, 2, 3], [1, 2, 4]));
    let entry = |has_x: bool, has_y: bool, has_z: bool| IioEntry { has_x, has_y, has_z };
    assert_eq!(discover_linux_iio_sensor(&vec![entry(true, true, false), entry(true, true, true)]), Some(1));
    assert_eq!(discover_linux_iio_sensor(&vec![entry(true, false, true)]), None);
    assert_eq!(number(iio_scale(None)), 0.009_576);
    assert_eq!(number(iio_scale(Some(level(0.5)))), 0.5);
}

#[test]
fn backends_by_platform() {
    let all = FoundSensors { spu: true, iio: true, hid: true };
    assert_eq!(discover_accel_backend(Platform::MacOs, all), Some(AccelBackend::AppleSilicon));
    assert_eq!(discover_accel_backend(Platform::Linux, all), Some(AccelBackend::LinuxIio));
    assert_eq!(discover_accel_backend(Platform::Windows, all), Some(AccelBackend::GenericHid));
    let hid = FoundSensors { spu: false, iio: false, hid: true };
    assert!(!accelerometer_available(Platform::MacOs, hid));
    assert!(accelerometer_available(Platform::Linux, hid));
    let none = FoundSensors { spu: true, iio: true, hid: false };
    assert!(!accelerometer_available(Platform::Windows, none));
}

#[test]
fn control_replaces_and_falls_back() {
    let start = |mode: DetectionMode| {
        DetectorEvent::Command(DetectorCmd::Start { mode, threshold: level(0.2), cooldown_ms: 500 })
    };
    let build = |mode: DetectionMode| Build { mode, threshold: level(0.2), cooldown_ms: 500 };
    let mic = DetectionMode::Microphone;
    let accel = DetectionMode::Accelerometer;
    let mut control = DetectorControl::new();
    assert_eq!(control.handle(start(accel)), DetectorAction::Start { stop: None, build: build(accel) });
    assert_eq!(
        control.handle(DetectorEvent::Failed),
        DetectorAction::Start { stop: None, build: build(mic) }
    );
    assert_eq!(control.handle(DetectorEvent::Built), DetectorAction::Wait);
    assert_eq!(control.runtime, Some(mic));
    assert_eq!(
        control.handle(start(mic)),
        DetectorAction::Start { stop: Some(mic), build: build(mic) }
    );
    assert_eq!(control.handle(DetectorEvent::Failed), DetectorAction::Wait);
    assert_eq!(control.runtime, None);
    assert_eq!(control.building, None);
    control.handle(start(accel));
    control.handle(DetectorEvent::Built);
    let stop = DetectorEvent::Command(DetectorCmd::Stop);
    assert_eq!(control.handle(stop), DetectorAction::Stop { stop: Some(accel) });
    assert_eq!(control.handle(DetectorEvent::Disconnected), DetectorAction::Exit { stop: None });
    assert_eq!(control.handle(DetectorEvent::Built), DetectorAction::Wait);
    assert_eq!(control.runtime, None);
}
