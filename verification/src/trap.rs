//! Trap-cause classification and the dispatcher's decision.
//!
//! A trap is either asynchronous (an interrupt: forwarded to the controller
//! or to the timer relay, never fatal even when unrecognised) or synchronous
//! (an exception: always fatal in this kernel — the core prints the faulting
//! state and halts). The dispatcher itself runs with interrupt taking
//! disabled on its core, so the single in-flight trap context cannot be
//! corrupted by a nested trap.

use vstd::prelude::*;
use crate::plic::{Plic, InterruptId, nth_bit};
use crate::interrupt::{InterruptAction, handle_interrupt};

verus! {

/// Every trap cause of the architecture, by cause code and interrupt flag.
#[derive(Debug, Clone, Copy, PartialEq, Eq, Structural)]
pub enum Trap {
    UserSoftwareInterrupt,
    SupervisorSoftwareInterrupt,
    MachineSofrwareInterrupt,
    UserTimerInterrupt,
    SupervisorTimerInterrupt,
    MachineTimerInterrupt,
    UserExternalInterrupt,
    SupervisorExternalInterrupt,
    MachineExternalInterrupt,
    InstructionAddressMisaligned,
    InstructionAccesFault,
    IllegalInstruction,
    Breakpoint,
    LoadAddressMisaligned,
    LoadAccessFault,
    StoreAddressMisaligned,
    StoreAccessFault,
    UserModeEnvironmentCall,
    SupervisorModeEvironmentCall,
    MachineModeEnvironmentCall,
    InstructionPageFault,
    LoadPageFault,
    StorePageFault,
    Reserved,
}

/// The cause a numeric code names.
pub open spec fn classify_spec(is_interrupt: bool, code: u64) -> Trap {
    if is_interrupt {
        if code == 0 {
            Trap::UserSoftwareInterrupt
        } else if code == 1 {
            Trap::SupervisorSoftwareInterrupt
        } else if code == 3 {
            Trap::MachineSofrwareInterrupt
        } else if code == 4 {
            Trap::UserTimerInterrupt
        } else if code == 5 {
            Trap::SupervisorTimerInterrupt
        } else if code == 7 {
            Trap::MachineTimerInterrupt
        } else if code == 8 {
            Trap::UserExternalInterrupt
        } else if code == 9 {
            Trap::SupervisorExternalInterrupt
        } else if code == 11 {
            Trap::MachineExternalInterrupt
        } else {
            Trap::Reserved
        }
    } else {
        if code == 0 {
            Trap::InstructionAddressMisaligned
        } else if code == 1 {
            Trap::InstructionAccesFault
        } else if code == 2 {
            Trap::IllegalInstruction
        } else if code == 3 {
            Trap::Breakpoint
        } else if code == 4 {
            Trap::LoadAddressMisaligned
        } else if code == 5 {
            Trap::LoadAccessFault
        } else if code == 6 {
            Trap::StoreAddressMisaligned
        } else if code == 7 {
            Trap::StoreAccessFault
        } else if code == 8 {
            Trap::UserModeEnvironmentCall
        } else if code == 9 {
            Trap::SupervisorModeEvironmentCall
        } else if code == 11 {
            Trap::MachineModeEnvironmentCall
        } else if code == 12 {
            Trap::InstructionPageFault
        } else if code == 13 {
            Trap::LoadPageFault
        } else if code == 15 {
            Trap::StorePageFault
        } else {
            Trap::Reserved
        }
    }
}

impl Trap {
    /// Name the cause a trap's numeric code and interrupt flag describe.
    pub fn classify(is_interrupt: bool, code: u64) -> (r: Trap)
        ensures
            r == classify_spec(is_interrupt, code),
    {
        if is_interrupt {
            if code == 0 {
                Trap::UserSoftwareInterrupt
            } else if code == 1 {
                Trap::SupervisorSoftwareInterrupt
            } else if code == 3 {
                Trap::MachineSofrwareInterrupt
            } else if code == 4 {
                Trap::UserTimerInterrupt
            } else if code == 5 {
                Trap::SupervisorTimerInterrupt
            } else if code == 7 {
                Trap::MachineTimerInterrupt
            } else if code == 8 {
                Trap::UserExternalInterrupt
            } else if code == 9 {
                Trap::SupervisorExternalInterrupt
            } else if code == 11 {
                Trap::MachineExternalInterrupt
            } else {
                Trap::Reserved
            }
        } else {
            if code == 0 {
                Trap::InstructionAddressMisaligned
            } else if code == 1 {
                Trap::InstructionAccesFault
            } else if code == 2 {
                Trap::IllegalInstruction
            } else if code == 3 {
                Trap::Breakpoint
            } else if code == 4 {
                Trap::LoadAddressMisaligned
            } else if code == 5 {
                Trap::LoadAccessFault
            } else if code == 6 {
                Trap::StoreAddressMisaligned
            } else if code == 7 {
                Trap::StoreAccessFault
            } else if code == 8 {
                Trap::UserModeEnvironmentCall
            } else if code == 9 {
                Trap::SupervisorModeEvironmentCall
            } else if code == 11 {
                Trap::MachineModeEnvironmentCall
            } else if code == 12 {
                Trap::InstructionPageFault
            } else if code == 13 {
                Trap::LoadPageFault
            } else if code == 15 {
                Trap::StorePageFault
            } else {
                Trap::Reserved
            }
        }
    }
}

impl Trap {
    /// A short cause description for the fatal report a halting core prints.
    pub fn describe(self) -> (r: &'static str)
        ensures
            r == (match self {
                Trap::UserSoftwareInterrupt => "user software interrupt",
                Trap::SupervisorSoftwareInterrupt => "supervisor software interrupt",
                Trap::MachineSofrwareInterrupt => "machine software interrupt",
                Trap::UserTimerInterrupt => "user timer interrupt",
                Trap::SupervisorTimerInterrupt => "supervisor timer interrupt",
                Trap::MachineTimerInterrupt => "machine timer interrupt",
                Trap::UserExternalInterrupt => "user external interrupt",
                Trap::SupervisorExternalInterrupt => "supervisor external interrupt",
                Trap::MachineExternalInterrupt => "machine external interrupt",
                Trap::InstructionAddressMisaligned => "instruction address misaligned",
                Trap::InstructionAccesFault => "instruction access fault",
                Trap::IllegalInstruction => "illegal instruction",
                Trap::Breakpoint => "breakpoint",
                Trap::LoadAddressMisaligned => "load address misaligned",
                Trap::LoadAccessFault => "load access fault",
                Trap::StoreAddressMisaligned => "store address misaligned",
                Trap::StoreAccessFault => "store access fault",
                Trap::UserModeEnvironmentCall => "environment call from user mode",
                Trap::SupervisorModeEvironmentCall => "environment call from supervisor mode",
                Trap::MachineModeEnvironmentCall => "environment call from machine mode",
                Trap::InstructionPageFault => "instruction page fault",
                Trap::LoadPageFault => "load page fault",
                Trap::StorePageFault => "store page fault",
                Trap::Reserved => "unhandled cause",
            }),
    {
        match self {
            Trap::UserSoftwareInterrupt => "user software interrupt",
            Trap::SupervisorSoftwareInterrupt => "supervisor software interrupt",
            Trap::MachineSofrwareInterrupt => "machine software interrupt",
            Trap::UserTimerInterrupt => "user timer interrupt",
            Trap::SupervisorTimerInterrupt => "supervisor timer interrupt",
            Trap::MachineTimerInterrupt => "machine timer interrupt",
            Trap::UserExternalInterrupt => "user external interrupt",
            Trap::SupervisorExternalInterrupt => "supervisor external interrupt",
            Trap::MachineExternalInterrupt => "machine external interrupt",
            Trap::InstructionAddressMisaligned => "instruction address misaligned",
            Trap::InstructionAccesFault => "instruction access fault",
            Trap::IllegalInstruction => "illegal instruction",
            Trap::Breakpoint => "breakpoint",
            Trap::LoadAddressMisaligned => "load address misaligned",
            Trap::LoadAccessFault => "load access fault",
            Trap::StoreAddressMisaligned => "store address misaligned",
            Trap::StoreAccessFault => "store access fault",
            Trap::UserModeEnvironmentCall => "environment call from user mode",
            Trap::SupervisorModeEvironmentCall => "environment call from supervisor mode",
            Trap::MachineModeEnvironmentCall => "environment call from machine mode",
            Trap::InstructionPageFault => "instruction page fault",
            Trap::LoadPageFault => "load page fault",
            Trap::StorePageFault => "store page fault",
            Trap::Reserved => "unhandled cause",
        }
    }
}

/// The state captured when a core enters a trap: faulting instruction
/// address, faulting value, numeric cause with its interrupt flag, the core
/// id, and whether interrupt taking was still enabled when the dispatcher
/// ran.
pub struct TrapContext {
    pub epc: u64,
    pub tval: u64,
    pub code: u64,
    pub is_interrupt: bool,
    pub hart: u64,
    pub interrupts_enabled: bool,
}

/// The dispatcher's verdict on one trap.
#[derive(Debug, Clone, Copy, PartialEq, Eq, Structural)]
pub enum TrapOutcome {
    /// An asynchronous cause, forwarded: the edge performs the named action
    /// and resumes the interrupted instruction stream.
    Forwarded(InterruptAction),
    /// A synchronous exception: the core prints the faulting state and halts
    /// permanently. There is no recovery path.
    Fatal(Trap),
}

/// Decide one trap: interrupts are routed (an external interrupt through the
/// controller's claim/complete protocol, the timer relay by clearing the
/// soft-pending flag, unknown codes dropped); every synchronous exception is
/// fatal. Interrupt taking must already be off on this core — finding it on
/// signals a bootstrap ordering bug and is excluded.
pub fn machine_trap(ctx: &TrapContext, plic: &mut Plic) -> (r: TrapOutcome)
    requires
        old(plic).wf(),
        !ctx.interrupts_enabled,
        ctx.code <= u32::MAX,
    ensures
        final(plic).wf(),
        !ctx.is_interrupt ==> r == TrapOutcome::Fatal(classify_spec(false, ctx.code))
            && *final(plic) == *old(plic),
        ctx.is_interrupt ==> (match r {
            TrapOutcome::Forwarded(action) => {
                &&& ctx.code == 9 ==> (match old(plic).claim_source() {
                    Option::None => action == InterruptAction::ServiceDevice(
                        Option::<InterruptId>::None,
                    ) && *final(plic) == *old(plic),
                    Option::Some(s) => {
                        &&& action == InterruptAction::ServiceDevice(Some(if s == 10 {
                            InterruptId::Uart0
                        } else {
                            InterruptId::Unknown
                        }))
                        &&& !nth_bit(final(plic).pending, s)
                        &&& !nth_bit(final(plic).in_service, s)
                    },
                })
                &&& ctx.code == 1 ==> action == InterruptAction::ClearSoftPending && *final(plic)
                    == *old(plic)
                &&& (ctx.code != 1 && ctx.code != 9) ==> action == InterruptAction::UnknownCode(
                    ctx.code as u32,
                ) && *final(plic) == *old(plic)
            },
            TrapOutcome::Fatal(_) => false,
        }),
{
    if ctx.is_interrupt {
        let action = handle_interrupt(ctx.code as u32, plic);
        TrapOutcome::Forwarded(action)
    } else {
        TrapOutcome::Fatal(Trap::classify(false, ctx.code))
    }
}

} // verus!
