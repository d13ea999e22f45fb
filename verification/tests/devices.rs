use rost::clint::{mtiecmp_hart, Clint, CLINT_BASE, CLINT_MTIMECMP_OFFSET, TIMER_INTERVAL};
use rost::plic::{hartinit, InterruptId, Plic, Priority, Threshold};

#[test]
fn claim_complete_pairing() {
    let mut plic = Plic::new();
    plic.enable(InterruptId::Uart0);
    plic.set_threshold(Threshold::All);
    plic.set_priority(InterruptId::Uart0, Priority::One);
    // the device asserts source 10
    plic.raise(10);
    assert!(plic.is_pending(InterruptId::Uart0));
    // next() returns it exactly once until complete(10)
    assert_eq!(plic.next(), Some(10));
    assert_eq!(plic.next(), None);
    // while in service, the gateway blocks re-pending
    plic.raise(10);
    assert!(!plic.is_pending(InterruptId::Uart0));
    assert_eq!(plic.next(), None);
    // after completion the source can pend and be claimed again
    plic.complete(10);
    plic.raise(10);
    assert_eq!(plic.next(), Some(10));
}

#[test]
fn claim_needs_enable() {
    let mut plic = Plic::new();
    plic.set_threshold(Threshold::All);
    plic.set_priority(InterruptId::Uart0, Priority::One);
    plic.raise(10);
    // pending but not enabled: not claimable
    assert_eq!(plic.next(), None);
    plic.enable(InterruptId::Uart0);
    assert_eq!(plic.next(), Some(10));
}

#[test]
fn threshold_masks_low_priority() {
    let mut plic = Plic::new();
    plic.enable(InterruptId::Uart0);
    plic.set_priority(InterruptId::Uart0, Priority::Three);
    plic.raise(10);
    // priority at or below the threshold is masked
    plic.set_threshold(Threshold::Level(Priority::Three));
    assert_eq!(plic.next(), None);
    plic.set_threshold(Threshold::Level(Priority::Two));
    assert_eq!(plic.next(), Some(10));
}

#[test]
fn threshold_none_masks_everything() {
    let mut plic = Plic::new();
    plic.enable(InterruptId::Uart0);
    plic.set_priority(InterruptId::Uart0, Priority::Seven);
    plic.raise(10);
    plic.set_threshold(Threshold::Nothing);
    assert_eq!(plic.next(), None);
}

#[test]
fn highest_priority_wins() {
    let mut plic = Plic::new();
    plic.set_threshold(Threshold::All);
    plic.enabled = (1 << 7) | (1 << 10);
    plic.priorities[7] = 3;
    plic.priorities[10] = 5;
    plic.raise(7);
    plic.raise(10);
    // the claim sorts by priority
    assert_eq!(plic.next(), Some(10));
    plic.complete(10);
    assert_eq!(plic.next(), Some(7));
}

#[test]
fn tie_breaks_to_lowest_id() {
    let mut plic = Plic::new();
    plic.set_threshold(Threshold::All);
    plic.enabled = (1 << 7) | (1 << 10);
    plic.priorities[7] = 4;
    plic.priorities[10] = 4;
    plic.raise(7);
    plic.raise(10);
    assert_eq!(plic.next(), Some(7));
}

#[test]
fn disable_stops_claims() {
    let mut plic = Plic::new();
    plic.set_threshold(Threshold::All);
    plic.enable(InterruptId::Uart0);
    plic.set_priority(InterruptId::Uart0, Priority::One);
    plic.raise(10);
    assert_eq!(plic.next(), Some(10));
    plic.complete(10);
    plic.disable(InterruptId::Uart0);
    plic.raise(10);
    assert_eq!(plic.next(), None);
}

#[test]
fn hartinit_configures_uart_line() {
    let mut plic = Plic::new();
    hartinit(&mut plic);
    assert_eq!(plic.enabled, 1 << 10);
    assert_eq!(plic.threshold, 0);
    assert_eq!(plic.priorities[10], 1);
    plic.raise(10);
    assert_eq!(plic.next(), Some(10));
}

#[test]
fn controller_setup_values() {
    let mut plic = Plic::new();
    plic.init(InterruptId::Uart0);
    assert_eq!(plic.priorities[10], 1);
    assert_eq!(InterruptId::from_code(10), InterruptId::Uart0);
    assert_eq!(InterruptId::from_code(7), InterruptId::Unknown);
    assert_eq!(InterruptId::Uart0.value(), 10);
    assert_eq!(InterruptId::Unknown.value(), 0);
    assert_eq!(Priority::Zero.value(), 0);
    assert_eq!(Priority::Seven.value(), 7);
    assert_eq!(Priority::from_threshold(Threshold::All).value(), 0);
    assert_eq!(Priority::from_threshold(Threshold::Nothing).value(), 7);
    assert_eq!(Priority::from_threshold(Threshold::Level(Priority::Four)).value(), 4);
}

#[test]
fn context_register_addresses() {
    assert_eq!(Plic::menable(0), 0x0c00_2000);
    assert_eq!(Plic::senable(1), 0x0c00_2180);
    assert_eq!(Plic::mpriority(1), 0x0c20_2000);
    assert_eq!(Plic::spriority(2), 0x0c20_5000);
    assert_eq!(Plic::mclaim(0), 0x0c20_0004);
    assert_eq!(Plic::sclaim(3), 0x0c20_7004);
}

#[test]
fn timer_arm_and_tick() {
    let mut clint = Clint::new();
    clint.timer_init(0);
    assert_eq!(clint.read_mtimecmp(0), TIMER_INTERVAL);
    assert_eq!(clint.scratch[0][3], CLINT_BASE + CLINT_MTIMECMP_OFFSET);
    assert_eq!(clint.scratch[0][4], TIMER_INTERVAL);
    // ticks reschedule relative to the prior scheduled time, never to "now":
    // handler latency cannot drift the period
    assert!(clint.timer_tick(0));
    assert_eq!(clint.read_mtimecmp(0), 2 * TIMER_INTERVAL);
    assert!(clint.timer_tick(0));
    assert_eq!(clint.read_mtimecmp(0), 3 * TIMER_INTERVAL);
    // other harts are untouched
    assert_eq!(clint.read_mtimecmp(1), 0);
}

#[test]
fn timer_register_addresses() {
    assert_eq!(mtiecmp_hart(0), CLINT_BASE + CLINT_MTIMECMP_OFFSET);
    assert_eq!(mtiecmp_hart(2), CLINT_BASE + 16 + CLINT_MTIMECMP_OFFSET);
}

#[test]
fn timer_compare_writes() {
    let mut clint = Clint::new();
    clint.write_mtimecmp(3, 777);
    assert_eq!(clint.read_mtimecmp(3), 777);
    clint.increment_mtimecmp(2, 50);
    assert_eq!(clint.read_mtimecmp(2), clint.read_mtime() + 50);
}
