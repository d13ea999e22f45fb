use rost::arch::{build_satp, intr_get, uptime};
use rost::hart::{boot_step, BootAction, HartStage};
use rost::interrupt::{handle_interrupt, plic_interrupt, InterruptAction};
use rost::plic::{InterruptId, Plic, Priority, Threshold};
use rost::trap::{machine_trap, Trap, TrapContext, TrapOutcome};
use rost::xorshift::XorShift;

fn armed_plic() -> Plic {
    let mut plic = Plic::new();
    plic.enable(InterruptId::Uart0);
    plic.set_threshold(Threshold::All);
    plic.set_priority(InterruptId::Uart0, Priority::One);
    plic
}

fn ctx(is_interrupt: bool, code: u64) -> TrapContext {
    TrapContext { epc: 0x8000_0100, tval: 0, code, is_interrupt, hart: 0, interrupts_enabled: false }
}

#[test]
fn external_interrupt_claims_and_completes() {
    let mut plic = armed_plic();
    plic.raise(10);
    let r = machine_trap(&ctx(true, 9), &mut plic);
    assert_eq!(r, TrapOutcome::Forwarded(InterruptAction::ServiceDevice(Some(InterruptId::Uart0))));
    // the source was completed: it can pend and be claimed again
    plic.raise(10);
    assert_eq!(plic.next(), Some(10));
}

#[test]
fn external_interrupt_without_pending_source() {
    let mut plic = armed_plic();
    let r = machine_trap(&ctx(true, 9), &mut plic);
    assert_eq!(r, TrapOutcome::Forwarded(InterruptAction::ServiceDevice(None)));
}

#[test]
fn timer_relay_clears_soft_flag() {
    let mut plic = armed_plic();
    let r = machine_trap(&ctx(true, 1), &mut plic);
    assert_eq!(r, TrapOutcome::Forwarded(InterruptAction::ClearSoftPending));
}

#[test]
fn unknown_interrupt_is_dropped_not_fatal() {
    let mut plic = armed_plic();
    let r = machine_trap(&ctx(true, 4), &mut plic);
    assert_eq!(r, TrapOutcome::Forwarded(InterruptAction::UnknownCode(4)));
}

#[test]
fn sync_exceptions_are_fatal() {
    let mut plic = armed_plic();
    assert_eq!(
        machine_trap(&ctx(false, 2), &mut plic),
        TrapOutcome::Fatal(Trap::IllegalInstruction)
    );
    assert_eq!(
        machine_trap(&ctx(false, 13), &mut plic),
        TrapOutcome::Fatal(Trap::LoadPageFault)
    );
    assert_eq!(machine_trap(&ctx(false, 14), &mut plic), TrapOutcome::Fatal(Trap::Reserved));
}

#[test]
fn fatal_cause_description() {
    assert_eq!(Trap::IllegalInstruction.describe(), "illegal instruction");
    assert_eq!(Trap::LoadPageFault.describe(), "load page fault");
    assert_eq!(Trap::Reserved.describe(), "unhandled cause");
}

#[test]
fn cause_classification() {
    assert_eq!(Trap::classify(true, 1), Trap::SupervisorSoftwareInterrupt);
    assert_eq!(Trap::classify(true, 5), Trap::SupervisorTimerInterrupt);
    assert_eq!(Trap::classify(true, 9), Trap::SupervisorExternalInterrupt);
    assert_eq!(Trap::classify(true, 2), Trap::Reserved);
    assert_eq!(Trap::classify(false, 0), Trap::InstructionAddressMisaligned);
    assert_eq!(Trap::classify(false, 3), Trap::Breakpoint);
    assert_eq!(Trap::classify(false, 8), Trap::UserModeEnvironmentCall);
    assert_eq!(Trap::classify(false, 12), Trap::InstructionPageFault);
    assert_eq!(Trap::classify(false, 15), Trap::StorePageFault);
}

#[test]
fn plic_interrupt_services_one_source() {
    let mut plic = armed_plic();
    plic.raise(10);
    assert_eq!(plic_interrupt(&mut plic), Some(InterruptId::Uart0));
    assert_eq!(plic_interrupt(&mut plic), None);
}

#[test]
fn handle_interrupt_routing() {
    let mut plic = armed_plic();
    assert_eq!(handle_interrupt(1, &mut plic), InterruptAction::ClearSoftPending);
    assert_eq!(handle_interrupt(7, &mut plic), InterruptAction::UnknownCode(7));
    plic.raise(10);
    assert_eq!(
        handle_interrupt(9, &mut plic),
        InterruptAction::ServiceDevice(Some(InterruptId::Uart0))
    );
}

#[test]
fn boot_sequence_boot_core() {
    let (s1, a1) = boot_step(HartStage::Cold, 0, false);
    assert_eq!((s1, a1), (HartStage::GlobalInit, BootAction::RunGlobalInit));
    let (s2, a2) = boot_step(s1, 0, false);
    assert_eq!((s2, a2), (HartStage::PrivilegeDrop, BootAction::DropPrivilege));
    let (s3, a3) = boot_step(s2, 0, false);
    assert_eq!((s3, a3), (HartStage::Running, BootAction::RunPerHartInit));
    let (s4, a4) = boot_step(s3, 0, false);
    assert_eq!((s4, a4), (HartStage::Running, BootAction::Idle));
}

#[test]
fn boot_sequence_secondary_core_waits_for_release() {
    let (s1, a1) = boot_step(HartStage::Cold, 3, false);
    assert_eq!((s1, a1), (HartStage::WaitForRelease, BootAction::WaitForInterrupt));
    // spins until the boot core sets the release flag
    let (s2, a2) = boot_step(s1, 3, false);
    assert_eq!((s2, a2), (HartStage::WaitForRelease, BootAction::WaitForInterrupt));
    let (s3, a3) = boot_step(s2, 3, true);
    assert_eq!((s3, a3), (HartStage::PrivilegeDrop, BootAction::DropPrivilege));
    let (s4, a4) = boot_step(s3, 3, true);
    assert_eq!((s4, a4), (HartStage::Running, BootAction::RunPerHartInit));
}

#[test]
fn satp_encoding() {
    let v = build_satp(8, 0, 0x8000_1000);
    assert_eq!(v, (8u64 << 60) | 0x8_0001);
    let v2 = build_satp(8, 0xffff, 0x8000_0000);
    assert_eq!(v2, (8u64 << 60) | (0xffffu64 << 44) | 0x8_0000);
}

#[test]
fn status_interrupt_bit() {
    assert!(intr_get(0b10));
    assert!(!intr_get(0b01));
    assert!(!intr_get(0));
}

#[test]
fn uptime_ticks_to_nanos() {
    assert_eq!(uptime(0), 0);
    assert_eq!(uptime(7), 700);
    assert_eq!(uptime(1_000_000), 100_000_000);
}

#[test]
fn xorshift_sequence() {
    let mut g = XorShift::from_seed(1);
    let first = g.next_u32();
    assert_eq!(first, 270369);
    assert_eq!(g.state, first);
    // zero is a fixed point
    let mut z = XorShift::from_seed(0);
    assert_eq!(z.next_u32(), 0);
    // deterministic: the same seed gives the same stream
    let mut g2 = XorShift::from_seed(1);
    assert_eq!(g2.next_u32(), first);
    assert_ne!(g.next_u32(), first);
}
