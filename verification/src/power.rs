//! The shutdown sequence.
//!
//! When the session ends the machine is switched off in three steps: the
//! surface is cleared, the picture is left standing for [`SHUTDOWN_DELAY`],
//! and the firmware is asked to power off. The sequencer hands these steps
//! out one at a time, in this order, and each of them once.

use vstd::prelude::*;

verus! {

/// Time between clearing the surface and powering off, in microseconds.
pub const SHUTDOWN_DELAY: u64 = 3_000_000;

/// How far the shutdown sequence has come.
#[derive(Clone, Copy, Debug, PartialEq, Eq, Structural)]
pub enum PowerStage {
    /// Nothing has been done yet.
    Armed,
    /// The surface has been cleared.
    Cleared,
    /// The delay has been waited for.
    Waited,
    /// Power-off has been requested.
    Off,
}

/// What the caller is to do next.
#[derive(Clone, Copy, Debug, PartialEq, Eq, Structural)]
pub enum PowerAction {
    /// Show the cleared surface.
    ClearSurface,
    /// Wait for this many microseconds.
    Stall(u64),
    /// Ask the firmware to power off. `success` is the status to report.
    PowerOff { success: bool },
    /// Nothing: the sequence has run.
    Done,
}

/// Hands out the steps of the shutdown sequence.
pub struct PowerSequencer {
    stage: PowerStage,
}

/// The step that is taken from `stage`.
pub open spec fn action_at(stage: PowerStage) -> PowerAction {
    match stage {
        PowerStage::Armed => PowerAction::ClearSurface,
        PowerStage::Cleared => PowerAction::Stall(SHUTDOWN_DELAY),
        PowerStage::Waited => PowerAction::PowerOff { success: true },
        PowerStage::Off => PowerAction::Done,
    }
}

/// The stage that follows `stage`. `Off` is final.
pub open spec fn stage_after(stage: PowerStage) -> PowerStage {
    match stage {
        PowerStage::Armed => PowerStage::Cleared,
        PowerStage::Cleared => PowerStage::Waited,
        PowerStage::Waited => PowerStage::Off,
        PowerStage::Off => PowerStage::Off,
    }
}

impl View for PowerSequencer {
    type V = PowerStage;

    closed spec fn view(&self) -> PowerStage {
        self.stage
    }
}

impl PowerSequencer {
    /// A sequencer that has not started.
    pub fn new() -> (p: Self)
        ensures
            p@ == PowerStage::Armed,
    {
        PowerSequencer { stage: PowerStage::Armed }
    }

    /// The stage the sequence has reached.
    pub fn stage(&self) -> (stage: PowerStage)
        ensures
            stage == self@,
    {
        self.stage
    }

    /// Takes the next step of the sequence and says what the caller is to do.
    pub fn step(&mut self) -> (action: PowerAction)
        ensures
            action == action_at(old(self)@),
            final(self)@ == stage_after(old(self)@),
    {
        match self.stage {
            PowerStage::Armed => {
                self.stage = PowerStage::Cleared;
                PowerAction::ClearSurface
            },
            PowerStage::Cleared => {
                self.stage = PowerStage::Waited;
                PowerAction::Stall(SHUTDOWN_DELAY)
            },
            PowerStage::Waited => {
                self.stage = PowerStage::Off;
                PowerAction::PowerOff { success: true }
            },
            PowerStage::Off => PowerAction::Done,
        }
    }
}

/// The stage reached from `stage` by `steps` steps.
pub open spec fn stage_after_steps(stage: PowerStage, steps: nat) -> PowerStage
    decreases steps,
{
    if steps == 0 {
        stage
    } else {
        stage_after(stage_after_steps(stage, (steps - 1) as nat))
    }
}

/// The sequence runs once and in order: from the start the steps are to
/// clear the surface, to wait for [`SHUTDOWN_DELAY`] and to power off with
/// success, and every step after these is `Done`.
pub proof fn lemma_shutdown_runs_once(steps: nat)
    ensures
        action_at(stage_after_steps(PowerStage::Armed, steps)) == (if steps == 0 {
            PowerAction::ClearSurface
        } else if steps == 1 {
            PowerAction::Stall(SHUTDOWN_DELAY)
        } else if steps == 2 {
            PowerAction::PowerOff { success: true }
        } else {
            PowerAction::Done
        }),
        steps >= 3 ==> stage_after_steps(PowerStage::Armed, steps) == PowerStage::Off,
    decreases steps,
{
    if steps > 0 {
        lemma_shutdown_runs_once((steps - 1) as nat);
    }
}

} // verus!
