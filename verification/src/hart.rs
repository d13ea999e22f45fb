//! The per-core bootstrap state machine.
//!
//! The boot core runs the one-time global initialisation (allocator, address
//! space, controller, trap vector, timer) and then drops privilege; every
//! other core idles on a wait-for-interrupt instruction until the boot core
//! sets the shared release flag, then runs only the per-core steps. A core
//! only ever reaches `Running` through the privilege drop.

use vstd::prelude::*;

verus! {

/// Where a core stands in its boot sequence.
#[derive(Debug, Clone, Copy, PartialEq, Eq, Structural)]
pub enum HartStage {
    Cold,
    GlobalInit,
    WaitForRelease,
    PrivilegeDrop,
    Running,
}

/// The outside work one bootstrap step asks of the unverified edge.
#[derive(Debug, Clone, Copy, PartialEq, Eq, Structural)]
pub enum BootAction {
    /// Run the one-time global initialisation (boot core only).
    RunGlobalInit,
    /// Idle on a wait-for-interrupt instruction, then poll the release flag.
    WaitForInterrupt,
    /// Delegate traps, record the core id, and drop to the kernel's
    /// operating privilege level.
    DropPrivilege,
    /// Activate translation, install this core's trap vector, and enable its
    /// controller lines.
    RunPerHartInit,
    /// Nothing left: serve traps.
    Idle,
}

/// The step a core takes from `stage`, given its hardware id and the shared
/// release flag.
pub open spec fn boot_step_spec(stage: HartStage, hart_id: u64, released: bool) -> (
    HartStage,
    BootAction,
) {
    match stage {
        HartStage::Cold => if hart_id == 0 {
            (HartStage::GlobalInit, BootAction::RunGlobalInit)
        } else {
            (HartStage::WaitForRelease, BootAction::WaitForInterrupt)
        },
        HartStage::GlobalInit => (HartStage::PrivilegeDrop, BootAction::DropPrivilege),
        HartStage::WaitForRelease => if released {
            (HartStage::PrivilegeDrop, BootAction::DropPrivilege)
        } else {
            (HartStage::WaitForRelease, BootAction::WaitForInterrupt)
        },
        HartStage::PrivilegeDrop => (HartStage::Running, BootAction::RunPerHartInit),
        HartStage::Running => (HartStage::Running, BootAction::Idle),
    }
}

/// Advance a core's bootstrap by one step.
pub fn boot_step(stage: HartStage, hart_id: u64, released: bool) -> (r: (HartStage, BootAction))
    ensures
        r == boot_step_spec(stage, hart_id, released),
{
    match stage {
        HartStage::Cold => {
            if hart_id == 0 {
                (HartStage::GlobalInit, BootAction::RunGlobalInit)
            } else {
                (HartStage::WaitForRelease, BootAction::WaitForInterrupt)
            }
        },
        HartStage::GlobalInit => (HartStage::PrivilegeDrop, BootAction::DropPrivilege),
        HartStage::WaitForRelease => {
            if released {
                (HartStage::PrivilegeDrop, BootAction::DropPrivilege)
            } else {
                (HartStage::WaitForRelease, BootAction::WaitForInterrupt)
            }
        },
        HartStage::PrivilegeDrop => (HartStage::Running, BootAction::RunPerHartInit),
        HartStage::Running => (HartStage::Running, BootAction::Idle),
    }
}

/// Ordering law of the bootstrap: a core only ever becomes `Running` out of
/// the privilege drop, and a waiting core leaves its wait only once the
/// release flag is set — so no core runs kernel code before the boot core's
/// global initialisation has released it.
pub proof fn lemma_running_needs_drop(stage: HartStage, hart_id: u64, released: bool)
    ensures
        boot_step_spec(stage, hart_id, released).0 == HartStage::Running ==> (stage
            == HartStage::PrivilegeDrop || stage == HartStage::Running),
        stage == HartStage::WaitForRelease && !released ==> boot_step_spec(
            stage,
            hart_id,
            released,
        ).0 == HartStage::WaitForRelease,
{
}

} // verus!
