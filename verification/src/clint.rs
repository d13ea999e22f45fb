//! The core-local interruptor: the free-running timer and one compare
//! register per core, with the per-core scratch records the stack-less tick
//! vector works from.
//!
//! Arming reads the current time and schedules `now + interval`; every tick
//! reschedules relative to the previously scheduled time, not to "now", so
//! handler latency never drifts the period. The tick vector only reschedules
//! and raises the supervisor software-interrupt flag; the ordinary
//! dispatcher does the bookkeeping.

use vstd::prelude::*;

verus! {

/// Base address and size of the interruptor's register block.
pub const CLINT_BASE: u64 = 0x200_0000;

pub const CLINT_SIZE: u64 = 0x1_0000;

pub const CLINT_MTIME_OFFSET: u64 = 0xbff8;

pub const CLINT_MTIMECMP_OFFSET: u64 = 0x4000;

/// Ticks between two timer interrupts of one core.
pub const TIMER_INTERVAL: u64 = 1_000_000;

/// Cores the scratch table is sized for.
pub const MAX_HARTS: usize = 8;

/// Address of a hart's timer-compare register.
pub fn mtiecmp_hart(hart: u64) -> (r: u64)
    requires
        hart < 8,
    ensures
        r == CLINT_BASE + 8 * hart + CLINT_MTIMECMP_OFFSET,
{
    CLINT_BASE + 8 * hart + CLINT_MTIMECMP_OFFSET
}

/// The interruptor's state: the global time counter, one compare register
/// per core, and the per-core scratch records (three register-save slots,
/// the compare-register address, and the interval).
pub struct Clint {
    pub mtime: u64,
    pub mtimecmp: Vec<u64>,
    pub scratch: Vec<[u64; 5]>,
}

impl Clint {
    pub open spec fn wf(self) -> bool {
        &&& self.mtimecmp@.len() == MAX_HARTS
        &&& self.scratch@.len() == MAX_HARTS
    }

    /// A model of the block at boot: time zero, every compare register and
    /// scratch record zeroed.
    pub fn new() -> (r: Clint)
        ensures
            r.wf(),
            r.mtime == 0,
            forall|h: int| 0 <= h < 8 ==> r.mtimecmp@[h] == 0,
    {
        let mut mtimecmp: Vec<u64> = Vec::new();
        let mut scratch: Vec<[u64; 5]> = Vec::new();
        let mut i: usize = 0;
        while i < 8
            invariant
                mtimecmp@.len() == i,
                scratch@.len() == i,
                i <= 8,
                forall|h: int| 0 <= h < i ==> mtimecmp@[h] == 0,
            decreases 8 - i,
        {
            mtimecmp.push(0);
            scratch.push([0, 0, 0, 0, 0]);
            i = i + 1;
        }
        Clint { mtime: 0, mtimecmp, scratch }
    }

    /// The free-running counter.
    pub fn read_mtime(&self) -> (r: u64)
        ensures
            r == self.mtime,
    {
        self.mtime
    }

    /// A hart's compare register.
    pub fn read_mtimecmp(&self, hart: usize) -> (r: u64)
        requires
            self.wf(),
            hart < 8,
        ensures
            r == self.mtimecmp@[hart as int],
    {
        self.mtimecmp[hart]
    }

    /// Write a hart's compare register: its next tick fires when the counter
    /// reaches the value.
    pub fn write_mtimecmp(&mut self, hart: usize, val: u64)
        requires
            old(self).wf(),
            hart < 8,
        ensures
            final(self).wf(),
            final(self).mtimecmp@ == old(self).mtimecmp@.update(hart as int, val),
            final(self).mtime == old(self).mtime,
            final(self).scratch@ == old(self).scratch@,
    {
        self.mtimecmp.set(hart, val);
    }

    /// Schedule a hart's next tick `interval` past the current time.
    pub fn increment_mtimecmp(&mut self, hart: usize, interval: u64)
        requires
            old(self).wf(),
            hart < 8,
            old(self).mtime + interval <= u64::MAX,
        ensures
            final(self).wf(),
            final(self).mtimecmp@ == old(self).mtimecmp@.update(
                hart as int,
                (old(self).mtime + interval) as u64,
            ),
            final(self).mtime == old(self).mtime,
            final(self).scratch@ == old(self).scratch@,
    {
        let current = self.read_mtime();
        self.write_mtimecmp(hart, current + interval);
    }

    /// Arm the timer for a hart: schedule its first tick one interval from
    /// now and fill its scratch record, so the stack-less tick vector can
    /// find the compare register and the interval.
    pub fn timer_init(&mut self, hart: usize)
        requires
            old(self).wf(),
            hart < 8,
            old(self).mtime + TIMER_INTERVAL <= u64::MAX,
        ensures
            final(self).wf(),
            final(self).mtime == old(self).mtime,
            final(self).mtimecmp@[hart as int] == old(self).mtime + TIMER_INTERVAL,
            forall|h: int|
                0 <= h < 8 && h != hart ==> final(self).mtimecmp@[h] == old(self).mtimecmp@[h],
            final(self).scratch@[hart as int][3] == CLINT_BASE + 8 * hart + CLINT_MTIMECMP_OFFSET,
            final(self).scratch@[hart as int][4] == TIMER_INTERVAL,
            forall|h: int|
                0 <= h < 8 && h != hart ==> final(self).scratch@[h] == old(self).scratch@[h],
    {
        self.increment_mtimecmp(hart, TIMER_INTERVAL);
        let addr = mtiecmp_hart(hart as u64);
        let mut slots = self.scratch[hart];
        slots[3] = addr;
        slots[4] = TIMER_INTERVAL;
        self.scratch.set(hart, slots);
    }

    /// One tick of the privileged timer vector on a hart: reschedule the
    /// compare register one interval past the previously scheduled time —
    /// never relative to "now", so handler latency cannot drift the period —
    /// and report that the supervisor software-interrupt flag must be
    /// raised.
    pub fn timer_tick(&mut self, hart: usize) -> (raise_soft: bool)
        requires
            old(self).wf(),
            hart < 8,
            old(self).mtimecmp@[hart as int] + old(self).scratch@[hart as int][4] <= u64::MAX,
        ensures
            final(self).wf(),
            final(self).mtime == old(self).mtime,
            final(self).scratch@ == old(self).scratch@,
            final(self).mtimecmp@ == old(self).mtimecmp@.update(
                hart as int,
                (old(self).mtimecmp@[hart as int] + old(self).scratch@[hart as int][4]) as u64,
            ),
            raise_soft,
    {
        let interval = self.scratch[hart][4];
        let next = self.mtimecmp[hart] + interval;
        self.mtimecmp.set(hart, next);
        true
    }
}

} // verus!
