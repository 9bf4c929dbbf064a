//! The bootstrap cascade that finds or installs an interpreter through an
//! external toolchain manager, with fixed retries, falling back to the system
//! interpreters. The caller performs each stage's work and reports its outcome.

use vstd::prelude::*;

verus! {

/// Attempts for each install stage.
pub const INSTALL_RETRIES: u32 = 3;

/// Seconds waited between two attempts of an install stage.
pub const RETRY_SLEEP_SECS: u64 = 4;

/// System interpreter names tried at the end.
pub const SYSTEM_CANDIDATES: usize = 2;

/// The work of each stage.
#[derive(Clone, Copy, Debug, PartialEq, Eq, Structural)]
pub enum DetectStage {
    /// Look for the manager on the search path and in its usual places.
    LocateManager,
    /// Run the manager's installer, then look for it again.
    InstallManager,
    /// Ask the manager for an interpreter it already has.
    QueryManaged,
    /// Ask the manager to install the pinned interpreter version.
    InstallInterpreter,
    /// Ask the manager where the installed interpreter is.
    QueryInstalled,
    /// Probe the system interpreter with the given index.
    SystemFallback,
    /// An interpreter was adopted.
    Adopted,
    /// Every stage failed.
    Exhausted,
}

/// The outcome of a stage's work.
#[derive(Clone, Copy, Debug, PartialEq, Eq, Structural)]
pub enum DetectOutcome {
    Succeeded,
    /// A failure that may be retried.
    Failed,
    /// A failure not worth retrying (the manager installed but cannot be found).
    FailedFinal,
}

/// Where the cascade stands.
#[derive(Clone, Copy, Debug, PartialEq, Eq, Structural)]
pub struct DetectState {
    pub stage: DetectStage,
    /// Attempt number (from 1) of an install stage.
    pub attempt: u32,
    /// Index of the system interpreter being probed.
    pub candidate: usize,
    /// Whether installing the manager failed.
    pub manager_install_failed: bool,
}

/// How a cascade that found nothing failed.
#[derive(Clone, Copy, Debug, PartialEq, Eq, Structural)]
pub enum DetectFailure {
    /// The manager could not be installed.
    ManagerInstallFailed,
    /// The manager was there, but no usable interpreter came of it.
    NoUsableInterpreter,
}

pub open spec fn detect_wf(s: DetectState) -> bool {
    &&& (s.stage == DetectStage::InstallManager || s.stage == DetectStage::InstallInterpreter) ==> 1
        <= s.attempt <= INSTALL_RETRIES
    &&& s.stage == DetectStage::SystemFallback ==> s.candidate < SYSTEM_CANDIDATES
}

pub open spec fn at(stage: DetectStage, attempt: u32, candidate: usize, failed: bool) -> DetectState {
    DetectState { stage, attempt, candidate, manager_install_failed: failed }
}

/// The cascade: find the manager or install it (retried), ask it for an
/// interpreter or have it install one (retried), then try the system
/// interpreters in order. The boolean says whether to wait
/// [`RETRY_SLEEP_SECS`] before the next stage (only between retries).
pub open spec fn detect_next(s: DetectState, o: DetectOutcome) -> (DetectState, bool) {
    let ok = o == DetectOutcome::Succeeded;
    let f = s.manager_install_failed;
    match s.stage {
        DetectStage::LocateManager => if ok {
            (at(DetectStage::QueryManaged, 0, 0, f), false)
        } else {
            (at(DetectStage::InstallManager, 1, 0, f), false)
        },
        DetectStage::InstallManager => if ok {
            (at(DetectStage::QueryManaged, 0, 0, f), false)
        } else if o == DetectOutcome::Failed && s.attempt < INSTALL_RETRIES {
            (at(DetectStage::InstallManager, (s.attempt + 1) as u32, 0, f), true)
        } else {
            (at(DetectStage::SystemFallback, 0, 0, true), false)
        },
        DetectStage::QueryManaged => if ok {
            (at(DetectStage::Adopted, 0, 0, f), false)
        } else {
            (at(DetectStage::InstallInterpreter, 1, 0, f), false)
        },
        DetectStage::InstallInterpreter => if ok {
            (at(DetectStage::QueryInstalled, 0, 0, f), false)
        } else if s.attempt < INSTALL_RETRIES {
            (at(DetectStage::InstallInterpreter, (s.attempt + 1) as u32, 0, f), true)
        } else {
            (at(DetectStage::SystemFallback, 0, 0, f), false)
        },
        DetectStage::QueryInstalled => if ok {
            (at(DetectStage::Adopted, 0, 0, f), false)
        } else {
            (at(DetectStage::SystemFallback, 0, 0, f), false)
        },
        DetectStage::SystemFallback => if ok {
            (at(DetectStage::Adopted, 0, 0, f), false)
        } else if s.candidate + 1 < SYSTEM_CANDIDATES {
            (at(DetectStage::SystemFallback, 0, (s.candidate + 1) as usize, f), false)
        } else {
            (at(DetectStage::Exhausted, 0, 0, f), false)
        },
        DetectStage::Adopted => (s, false),
        DetectStage::Exhausted => (s, false),
    }
}

/// A bound on the stages left, lowered by every step of a running cascade.
pub open spec fn detect_measure(s: DetectState) -> int {
    match s.stage {
        DetectStage::LocateManager => 100,
        DetectStage::InstallManager => 100 - s.attempt,
        DetectStage::QueryManaged => 50,
        DetectStage::InstallInterpreter => 50 - s.attempt,
        DetectStage::QueryInstalled => 40,
        DetectStage::SystemFallback => 10 - s.candidate,
        DetectStage::Adopted => 0,
        DetectStage::Exhausted => 0,
    }
}

pub open spec fn detect_finished(s: DetectState) -> bool {
    s.stage == DetectStage::Adopted || s.stage == DetectStage::Exhausted
}

fn state_at(stage: DetectStage, attempt: u32, candidate: usize, failed: bool) -> (r: DetectState)
    ensures
        r == at(stage, attempt, candidate, failed),
{
    DetectState { stage, attempt, candidate, manager_install_failed: failed }
}

/// The state the cascade starts in.
pub fn detect_start() -> (r: DetectState)
    ensures
        r == at(DetectStage::LocateManager, 0, 0, false),
        detect_wf(r),
{
    DetectState {
        stage: DetectStage::LocateManager,
        attempt: 0,
        candidate: 0,
        manager_install_failed: false,
    }
}

/// The next state of the cascade after a stage's outcome, as [`detect_next`] says.
pub fn detect_step(s: DetectState, o: DetectOutcome) -> (r: (DetectState, bool))
    requires
        detect_wf(s),
    ensures
        r == detect_next(s, o),
        detect_wf(r.0),
{
    let ok = o == DetectOutcome::Succeeded;
    let f = s.manager_install_failed;
    match s.stage {
        DetectStage::LocateManager => if ok {
            (state_at(DetectStage::QueryManaged, 0, 0, f), false)
        } else {
            (state_at(DetectStage::InstallManager, 1, 0, f), false)
        },
        DetectStage::InstallManager => if ok {
            (state_at(DetectStage::QueryManaged, 0, 0, f), false)
        } else if o == DetectOutcome::Failed && s.attempt < INSTALL_RETRIES {
            (state_at(DetectStage::InstallManager, s.attempt + 1, 0, f), true)
        } else {
            (state_at(DetectStage::SystemFallback, 0, 0, true), false)
        },
        DetectStage::QueryManaged => if ok {
            (state_at(DetectStage::Adopted, 0, 0, f), false)
        } else {
            (state_at(DetectStage::InstallInterpreter, 1, 0, f), false)
        },
        DetectStage::InstallInterpreter => if ok {
            (state_at(DetectStage::QueryInstalled, 0, 0, f), false)
        } else if s.attempt < INSTALL_RETRIES {
            (state_at(DetectStage::InstallInterpreter, s.attempt + 1, 0, f), true)
        } else {
            (state_at(DetectStage::SystemFallback, 0, 0, f), false)
        },
        DetectStage::QueryInstalled => if ok {
            (state_at(DetectStage::Adopted, 0, 0, f), false)
        } else {
            (state_at(DetectStage::SystemFallback, 0, 0, f), false)
        },
        DetectStage::SystemFallback => if ok {
            (state_at(DetectStage::Adopted, 0, 0, f), false)
        } else if s.candidate + 1 < SYSTEM_CANDIDATES {
            (state_at(DetectStage::SystemFallback, 0, s.candidate + 1, f), false)
        } else {
            (state_at(DetectStage::Exhausted, 0, 0, f), false)
        },
        DetectStage::Adopted => (s, false),
        DetectStage::Exhausted => (s, false),
    }
}

/// Whether the cascade has ended.
pub fn detect_is_finished(s: DetectState) -> (r: bool)
    ensures
        r == detect_finished(s),
{
    s.stage == DetectStage::Adopted || s.stage == DetectStage::Exhausted
}

/// How an exhausted cascade failed.
pub fn detect_failure(s: DetectState) -> (r: DetectFailure)
    ensures
        s.manager_install_failed ==> r == DetectFailure::ManagerInstallFailed,
        !s.manager_install_failed ==> r == DetectFailure::NoUsableInterpreter,
{
    if s.manager_install_failed {
        DetectFailure::ManagerInstallFailed
    } else {
        DetectFailure::NoUsableInterpreter
    }
}

/// The cascade always ends: every step of a running cascade lowers a measure
/// that starts at 100 and never goes below 0, so it ends within 100 stages.
pub proof fn lemma_detect_terminates(s: DetectState, o: DetectOutcome)
    requires
        detect_wf(s),
    ensures
        0 <= detect_measure(s) <= 100,
        !detect_finished(s) ==> 0 <= detect_measure(detect_next(s, o).0) < detect_measure(s),
        detect_finished(s) ==> detect_next(s, o).0 == s,
{
}

} // verus!
