//! Control of the slap detector: what runs, what is started in its place, and
//! what is tried when that fails.

use vstd::prelude::*;

use crate::level::Level;

verus! {

/// Where slaps are looked for.
#[derive(Debug, Clone, Copy, PartialEq, Eq, Structural)]
pub enum DetectionMode {
    Microphone,
    Accelerometer,
}

impl Default for DetectionMode {
    fn default() -> (mode: Self)
        ensures
            mode == DetectionMode::Microphone,
    {
        Self::Microphone
    }
}

/// A command to the detector.
#[derive(Debug, Clone, Copy, PartialEq, Eq, Structural)]
pub enum DetectorCmd {
    Start { mode: DetectionMode, threshold: Level, cooldown_ms: u64 },
    Stop,
}

/// A detector that is to be built.
#[derive(Debug, Clone, Copy, PartialEq, Eq, Structural)]
pub struct Build {
    pub mode: DetectionMode,
    pub threshold: Level,
    pub cooldown_ms: u64,
}

/// What can happen to the thread that runs the detector.
#[derive(Debug, Clone, Copy, PartialEq, Eq, Structural)]
pub enum DetectorEvent {
    Command(DetectorCmd),
    /// Nobody is left to send commands.
    Disconnected,
    /// The detector that was to be built runs.
    Built,
    /// The detector that was to be built could not be built.
    Failed,
}

/// What the thread does next. `stop` is the detector that runs and is to be
/// stopped first.
#[derive(Debug, Clone, Copy, PartialEq, Eq, Structural)]
pub enum DetectorAction {
    Start { stop: Option<DetectionMode>, build: Build },
    Stop { stop: Option<DetectionMode> },
    Exit { stop: Option<DetectionMode> },
    Wait,
}

/// What runs, and what is being built.
#[derive(Debug, Clone, Copy, PartialEq, Eq, Structural)]
pub struct DetectorControl {
    pub runtime: Option<DetectionMode>,
    pub building: Option<Build>,
}

/// Nothing runs and nothing is being built.
pub open spec fn idle() -> DetectorControl {
    DetectorControl { runtime: None, building: None }
}

/// The detector that is built where another could not be: the microphone in
/// place of the accelerometer, and nothing in place of the microphone.
pub open spec fn fallback(build: Build) -> Option<Build> {
    match build.mode {
        DetectionMode::Microphone => None,
        DetectionMode::Accelerometer => Some(
            Build { mode: DetectionMode::Microphone, ..build },
        ),
    }
}

pub open spec fn control_step(control: DetectorControl, event: DetectorEvent) -> (
    DetectorControl,
    DetectorAction,
) {
    match event {
        DetectorEvent::Command(DetectorCmd::Start { mode, threshold, cooldown_ms }) => {
            let build = Build { mode, threshold, cooldown_ms };
            (
                DetectorControl { runtime: None, building: Some(build) },
                DetectorAction::Start { stop: control.runtime, build },
            )
        },
        DetectorEvent::Command(DetectorCmd::Stop) => (
            idle(),
            DetectorAction::Stop { stop: control.runtime },
        ),
        DetectorEvent::Disconnected => (idle(), DetectorAction::Exit { stop: control.runtime }),
        DetectorEvent::Built => match control.building {
            Some(build) => (
                DetectorControl { runtime: Some(build.mode), building: None },
                DetectorAction::Wait,
            ),
            None => (control, DetectorAction::Wait),
        },
        DetectorEvent::Failed => match control.building {
            Some(build) => match fallback(build) {
                Some(other) => (
                    DetectorControl { building: Some(other), ..control },
                    DetectorAction::Start { stop: None, build: other },
                ),
                None => (
                    DetectorControl { building: None, ..control },
                    DetectorAction::Wait,
                ),
            },
            None => (control, DetectorAction::Wait),
        },
    }
}

impl DetectorControl {
    pub fn new() -> (control: DetectorControl)
        ensures
            control == idle(),
    {
        DetectorControl { runtime: None, building: None }
    }

    /// Takes an event; says what to do next.
    pub fn handle(&mut self, event: DetectorEvent) -> (action: DetectorAction)
        ensures
            (*final(self), action) == control_step(*old(self), event),
    {
        let stop = self.runtime;
        match event {
            DetectorEvent::Command(DetectorCmd::Start { mode, threshold, cooldown_ms }) => {
                let build = Build { mode, threshold, cooldown_ms };
                self.runtime = None;
                self.building = Some(build);
                DetectorAction::Start { stop, build }
            },
            DetectorEvent::Command(DetectorCmd::Stop) => {
                self.runtime = None;
                self.building = None;
                DetectorAction::Stop { stop }
            },
            DetectorEvent::Disconnected => {
                self.runtime = None;
                self.building = None;
                DetectorAction::Exit { stop }
            },
            DetectorEvent::Built => {
                if let Some(build) = self.building {
                    self.runtime = Some(build.mode);
                    self.building = None;
                }
                DetectorAction::Wait
            },
            DetectorEvent::Failed => {
                if let Some(build) = self.building {
                    match build.mode {
                        DetectionMode::Accelerometer => {
                            let other = Build {
                                mode: DetectionMode::Microphone,
                                threshold: build.threshold,
                                cooldown_ms: build.cooldown_ms,
                            };
                            self.building = Some(other);
                            return DetectorAction::Start { stop: None, build: other };
                        },
                        DetectionMode::Microphone => {
                            self.building = None;
                        },
                    }
                }
                DetectorAction::Wait
            },
        }
    }
}

// ── Laws ─────────────────────────────────────────────────────────────

/// How many detectors run after an event and the action that answers it.
pub open spec fn running_after(running: int, event: DetectorEvent, action: DetectorAction) -> int {
    let built: int = if event is Built {
        1
    } else {
        0
    };
    let stopped: int = match action {
        DetectorAction::Start { stop: Some(_), .. } => 1,
        DetectorAction::Stop { stop: Some(_) } => 1,
        DetectorAction::Exit { stop: Some(_) } => 1,
        _ => 0,
    };
    running + built - stopped
}

/// The count of running detectors is what the control believes: one or none. While
/// something is being built nothing runs.
pub open spec fn is_accurate(control: DetectorControl, running: int) -> bool {
    &&& running == if control.runtime is Some {
        1int
    } else {
        0int
    }
    &&& control.building is Some ==> control.runtime is None
}

/// At most one detector runs at any time. An event can only tell of a detector
/// that was built where one was being built.
pub proof fn law_at_most_one_detector_runs(
    control: DetectorControl,
    running: int,
    event: DetectorEvent,
)
    requires
        is_accurate(control, running),
        event is Built ==> control.building is Some,
    ensures
        ({
            let (after, action) = control_step(control, event);
            let count = running_after(running, event, action);
            is_accurate(after, count) && 0 <= count <= 1
        }),
{
}

/// What runs once a start has been dealt with: what was asked for if it could be
/// built; in place of the accelerometer the microphone if that could be built;
/// else nothing. What ran before does not run any more.
pub proof fn law_start_replaces_and_falls_back(
    control: DetectorControl,
    mode: DetectionMode,
    threshold: Level,
    cooldown_ms: u64,
    built: bool,
    fallback_built: bool,
)
    ensures
        ({
            let start = DetectorCmd::Start { mode, threshold, cooldown_ms };
            let outcome = |good: bool|
                if good {
                    DetectorEvent::Built
                } else {
                    DetectorEvent::Failed
                };
            let first = control_step(control, DetectorEvent::Command(start)).0;
            let second = control_step(first, outcome(built)).0;
            let end = if second.building is Some {
                control_step(second, outcome(fallback_built)).0
            } else {
                second
            };
            &&& end.building is None
            &&& end.runtime == if built {
                Some(mode)
            } else if mode == DetectionMode::Accelerometer && fallback_built {
                Some(DetectionMode::Microphone)
            } else {
                None
            }
        }),
{
}

/// A start asks for just what the command says, stops what ran, and leaves nothing
/// running until something has been built.
pub proof fn law_a_start_is_passed_on(
    control: DetectorControl,
    mode: DetectionMode,
    threshold: Level,
    cooldown_ms: u64,
)
    ensures
        ({
            let start = DetectorCmd::Start { mode, threshold, cooldown_ms };
            let (after, action) = control_step(control, DetectorEvent::Command(start));
            &&& after.runtime is None
            &&& after.building is Some
            &&& action matches DetectorAction::Start { stop, build } && {
                &&& stop == control.runtime
                &&& build.mode == mode && build.threshold == threshold && build.cooldown_ms
                    == cooldown_ms
                &&& after.building == Some(build)
            }
        }),
{
}

/// A stop, or the end of all commands, stops what ran and leaves nothing behind;
/// only the latter ends the thread.
pub proof fn law_a_stop_stops(control: DetectorControl)
    ensures
        ({
            let (after, action) = control_step(control, DetectorEvent::Command(DetectorCmd::Stop));
            &&& after.runtime is None && after.building is None
            &&& action == (DetectorAction::Stop { stop: control.runtime })
        }),
        ({
            let (after, action) = control_step(control, DetectorEvent::Disconnected);
            &&& after.runtime is None && after.building is None
            &&& action == (DetectorAction::Exit { stop: control.runtime })
        }),
{
}

/// The microphone is tried in place of an accelerometer that failed, with the same
/// figures and once; a microphone that failed is not replaced. What was built runs.
pub proof fn law_what_is_tried_next(control: DetectorControl, build: Build)
    requires
        control.building == Some(build),
    ensures
        ({
            let (after, action) = control_step(control, DetectorEvent::Failed);
            &&& build.mode == DetectionMode::Accelerometer ==> {
                &&& action matches DetectorAction::Start { stop: None, build: other } && {
                    &&& other.mode == DetectionMode::Microphone
                    &&& other.threshold == build.threshold
                    &&& other.cooldown_ms == build.cooldown_ms
                    &&& after.building == Some(other)
                }
            }
            &&& build.mode == DetectionMode::Microphone ==> action == DetectorAction::Wait
                && after.building is None
            &&& after.runtime == control.runtime
        }),
        ({
            let (after, action) = control_step(control, DetectorEvent::Built);
            &&& after.runtime == Some(build.mode) && after.building is None
            &&& action == DetectorAction::Wait
        }),
{
}

/// An outcome that nobody waits for changes nothing.
pub proof fn law_stray_outcomes_are_ignored(control: DetectorControl)
    requires
        control.building is None,
    ensures
        control_step(control, DetectorEvent::Built) == (control, DetectorAction::Wait),
        control_step(control, DetectorEvent::Failed) == (control, DetectorAction::Wait),
{
}

} // verus!
