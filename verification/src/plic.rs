//! The platform-level external-interrupt controller.
//!
//! One claim/complete context per core: an enable bitmap, a priority word
//! per source, a threshold register, and the claim/complete register. The
//! model holds this register state, together with the device-side pending
//! bitmap and the per-source gateways, as owned data: a claim returns the
//! highest-priority pending enabled source above the threshold and atomically
//! marks it in service; completing the same id reopens its gateway, and until
//! then the source cannot become pending again.

use vstd::prelude::*;

verus! {

/// Base address of the controller's register block.
pub const PLIC_BASE: u64 = 0x0c00_0000;

pub const PLIC_PENDING: u64 = 0x0c00_1000;

pub const PLIC_MENABLE_BASE: u64 = 0x0c00_2000;

pub const PLIC_SENABLE_BASE: u64 = 0x0c00_2080;

pub const PLIC_MPRIORITY_BASE: u64 = 0x0c20_0000;

pub const PLIC_SPRIORITY_BASE: u64 = 0x0c20_1000;

pub const PLIC_MCLAIM_BASE: u64 = 0x0c20_0004;

pub const PLIC_SCLAIM_BASE: u64 = 0x0c20_1004;

/// Interrupt priority: one is the lowest active priority, seven the highest,
/// zero never interrupts.
#[derive(Debug, Clone, Copy, PartialEq, Eq, Structural)]
pub enum Priority {
    Zero,
    One,
    Two,
    Three,
    Four,
    Five,
    Six,
    Seven,
}

impl Priority {
    pub open spec fn spec_value(self) -> u32 {
        match self {
            Priority::Zero => 0,
            Priority::One => 1,
            Priority::Two => 2,
            Priority::Three => 3,
            Priority::Four => 4,
            Priority::Five => 5,
            Priority::Six => 6,
            Priority::Seven => 7,
        }
    }

    #[verifier::when_used_as_spec(spec_value)]
    pub fn value(self) -> (r: u32)
        ensures
            r == self.spec_value(),
    {
        match self {
            Priority::Zero => 0,
            Priority::One => 1,
            Priority::Two => 2,
            Priority::Three => 3,
            Priority::Four => 4,
            Priority::Five => 5,
            Priority::Six => 6,
            Priority::Seven => 7,
        }
    }

    /// The priority a threshold setting writes to the threshold register:
    /// sources at or below it are masked.
    pub fn from_threshold(threshold: Threshold) -> (r: Priority)
        ensures
            r == threshold.priority(),
    {
        match threshold {
            Threshold::All => Priority::Zero,
            Threshold::Nothing => Priority::Seven,
            Threshold::Level(priority) => priority,
        }
    }
}

/// A threshold setting: let every source through, none at all, or only
/// those above a given priority.
#[derive(Debug, Clone, Copy, PartialEq, Eq, Structural)]
pub enum Threshold {
    All,
    Nothing,
    Level(Priority),
}

impl Threshold {
    pub open spec fn priority(self) -> Priority {
        match self {
            Threshold::All => Priority::Zero,
            Threshold::Nothing => Priority::Seven,
            Threshold::Level(priority) => priority,
        }
    }
}

/// The interrupt sources this kernel knows by name.
#[derive(Debug, Clone, Copy, PartialEq, Eq, Structural)]
pub enum InterruptId {
    Unknown,
    Uart0,
}

impl InterruptId {
    pub open spec fn spec_value(self) -> u32 {
        match self {
            InterruptId::Unknown => 0,
            InterruptId::Uart0 => 10,
        }
    }

    #[verifier::when_used_as_spec(spec_value)]
    pub fn value(self) -> (r: u32)
        ensures
            r == self.spec_value(),
    {
        match self {
            InterruptId::Unknown => 0,
            InterruptId::Uart0 => 10,
        }
    }

    /// The name of a raw source id; sources this kernel does not service
    /// fold to `Unknown`.
    pub fn from_code(irq: u32) -> (r: InterruptId)
        ensures
            r == (if irq == 10 {
                InterruptId::Uart0
            } else {
                InterruptId::Unknown
            }),
    {
        if irq == 10 {
            InterruptId::Uart0
        } else {
            InterruptId::Unknown
        }
    }
}

/// Bit `i` of a register bitmap.
pub open spec fn nth_bit(x: u32, i: u32) -> bool {
    x & (1u32 << i) != 0
}

proof fn lemma_bit_ops(x: u32, i: u32, j: u32)
    by (bit_vector)
    requires
        i < 32,
        j < 32,
    ensures
        (x & !(1u32 << i)) & (1u32 << i) == 0,
        (x | (1u32 << i)) & (1u32 << i) != 0,
        i != j ==> ((x & !(1u32 << i)) & (1u32 << j) == x & (1u32 << j)),
        i != j ==> ((x | (1u32 << i)) & (1u32 << j) == x & (1u32 << j)),
{
}

/// One core's view of the controller: its claim/complete context plus the
/// device-side pending bitmap and gateways.
pub struct Plic {
    pub enabled: u32,
    pub threshold: u32,
    pub priorities: Vec<u32>,
    pub pending: u32,
    pub in_service: u32,
}

impl Plic {
    pub open spec fn wf(self) -> bool {
        self.priorities@.len() == 32
    }

    /// Source `s` can be claimed: pending, enabled, and prioritised above
    /// the threshold. Source zero does not exist.
    pub open spec fn eligible(self, s: u32) -> bool {
        &&& 0 < s < 32
        &&& nth_bit(self.pending, s)
        &&& nth_bit(self.enabled, s)
        &&& self.priorities@[s as int] > self.threshold
    }

    /// The best claimable source among those below `k`: highest priority,
    /// lowest id on a tie.
    pub open spec fn best_upto(self, k: u32) -> Option<u32>
        decreases k,
    {
        if k == 0 {
            None
        } else {
            let s = (k - 1) as u32;
            let prev = self.best_upto(s);
            if self.eligible(s) {
                match prev {
                    Option::None => Some(s),
                    Option::Some(p) => if self.priorities@[s as int] > self.priorities@[
                        p as int
                    ] {
                        Some(s)
                    } else {
                        Some(p)
                    },
                }
            } else {
                prev
            }
        }
    }

    /// What a read of the claim register hands out.
    pub open spec fn claim_source(self) -> Option<u32> {
        self.best_upto(32)
    }

    /// A fresh controller model: nothing enabled, nothing pending, threshold
    /// zero.
    pub fn new() -> (r: Plic)
        ensures
            r.wf(),
            r.enabled == 0,
            r.threshold == 0,
            r.pending == 0,
            r.in_service == 0,
            forall|s: int| 0 <= s < 32 ==> r.priorities@[s] == 0,
    {
        let mut priorities: Vec<u32> = Vec::new();
        let mut i: usize = 0;
        while i < 32
            invariant
                priorities@.len() == i,
                i <= 32,
                forall|s: int| 0 <= s < i ==> priorities@[s] == 0,
            decreases 32 - i,
        {
            priorities.push(0);
            i = i + 1;
        }
        Plic { enabled: 0, threshold: 0, priorities, pending: 0, in_service: 0 }
    }

    /// Give a source the lowest active priority, as the one-time controller
    /// setup does.
    pub fn init(&mut self, id: InterruptId)
        requires
            old(self).wf(),
        ensures
            final(self).wf(),
            final(self).priorities@ == old(self).priorities@.update(id.value() as int, 1u32),
            final(self).enabled == old(self).enabled,
            final(self).threshold == old(self).threshold,
            final(self).pending == old(self).pending,
            final(self).in_service == old(self).in_service,
    {
        let idx = id.value() as usize;
        self.priorities.set(idx, 1);
    }

    /// Set the enable bit of a source in this context's enable bitmap.
    pub fn enable(&mut self, id: InterruptId)
        ensures
            final(self).enabled == old(self).enabled | (1u32 << id.value()),
            final(self).threshold == old(self).threshold,
            final(self).priorities@ == old(self).priorities@,
            final(self).pending == old(self).pending,
            final(self).in_service == old(self).in_service,
            nth_bit(final(self).enabled, id.value()),
            forall|j: u32| j < 32 && j != id.value() ==> nth_bit(final(self).enabled, j) == nth_bit(old(self).enabled, j),
    {
        let bit = id.value();
        self.enabled = self.enabled | (1u32 << bit);
        proof {
            assert forall|j: u32| j < 32 && j != bit implies nth_bit(self.enabled, j) == nth_bit(
                old(self).enabled,
                j,
            ) by {
                lemma_bit_ops(old(self).enabled, bit, j);
            }
            lemma_bit_ops(old(self).enabled, bit, bit);
        }
    }

    /// Clear the enable bit of a source.
    pub fn disable(&mut self, id: InterruptId)
        ensures
            final(self).enabled == old(self).enabled & !(1u32 << id.value()),
            final(self).threshold == old(self).threshold,
            final(self).priorities@ == old(self).priorities@,
            final(self).pending == old(self).pending,
            final(self).in_service == old(self).in_service,
            !nth_bit(final(self).enabled, id.value()),
            forall|j: u32| j < 32 && j != id.value() ==> nth_bit(final(self).enabled, j) == nth_bit(old(self).enabled, j),
    {
        let bit = id.value();
        self.enabled = self.enabled & !(1u32 << bit);
        proof {
            assert forall|j: u32| j < 32 && j != bit implies nth_bit(self.enabled, j) == nth_bit(
                old(self).enabled,
                j,
            ) by {
                lemma_bit_ops(old(self).enabled, bit, j);
            }
            lemma_bit_ops(old(self).enabled, bit, bit);
        }
    }

    /// Set a source's priority word.
    pub fn set_priority(&mut self, id: InterruptId, priority: Priority)
        requires
            old(self).wf(),
        ensures
            final(self).wf(),
            final(self).priorities@ == old(self).priorities@.update(
                id.value() as int,
                priority.value(),
            ),
            final(self).enabled == old(self).enabled,
            final(self).threshold == old(self).threshold,
            final(self).pending == old(self).pending,
            final(self).in_service == old(self).in_service,
    {
        let idx = id.value() as usize;
        self.priorities.set(idx, priority.value());
    }

    /// Set this context's threshold: sources with priority at or below it
    /// are masked.
    pub fn set_threshold(&mut self, threshold: Threshold)
        ensures
            final(self).threshold == threshold.priority().value(),
            final(self).enabled == old(self).enabled,
            final(self).priorities@ == old(self).priorities@,
            final(self).pending == old(self).pending,
            final(self).in_service == old(self).in_service,
    {
        let p = Priority::from_threshold(threshold);
        self.threshold = p.value();
    }

    /// Whether a source is pending.
    pub fn is_pending(&self, id: InterruptId) -> (r: bool)
        ensures
            r == nth_bit(self.pending, id.value()),
    {
        self.pending & (1u32 << id.value()) != 0
    }

    /// The device side: source `id` asserts its interrupt line. The gateway
    /// forwards it to the pending bitmap only when the source is not in
    /// service; a source claimed and not yet completed cannot pend again.
    pub fn raise(&mut self, id: u32)
        requires
            id < 32,
        ensures
            final(self).enabled == old(self).enabled,
            final(self).threshold == old(self).threshold,
            final(self).priorities@ == old(self).priorities@,
            final(self).in_service == old(self).in_service,
            nth_bit(old(self).in_service, id) ==> final(self).pending == old(self).pending,
            !nth_bit(old(self).in_service, id) ==> final(self).pending == (old(self).pending | (
            1u32 << id)) && nth_bit(final(self).pending, id),
            forall|j: u32|
                j < 32 && j != id ==> nth_bit(final(self).pending, j) == nth_bit(
                    old(self).pending,
                    j,
                ),
    {
        if self.in_service & (1u32 << id) == 0 {
            self.pending = self.pending | (1u32 << id);
            proof {
                assert forall|j: u32| j < 32 && j != id implies nth_bit(self.pending, j)
                    == nth_bit(old(self).pending, j) by {
                    lemma_bit_ops(old(self).pending, id, j);
                }
                lemma_bit_ops(old(self).pending, id, id);
            }
        }
    }

    /// Whether source `s` could be claimed right now.
    fn src_eligible(&self, s: u32) -> (r: bool)
        requires
            self.wf(),
            s < 32,
        ensures
            r == self.eligible(s),
    {
        s != 0 && (self.pending & (1u32 << s)) != 0 && (self.enabled & (1u32 << s)) != 0
            && self.priorities[s as usize] > self.threshold
    }

    /// Read the claim register: hand out the highest-priority pending
    /// enabled source above the threshold (the lowest id on a tie), clear
    /// its pending bit and mark it in service; zero reads — no claimable
    /// source — return nothing and change nothing.
    pub fn next(&mut self) -> (r: Option<u32>)
        requires
            old(self).wf(),
        ensures
            final(self).wf(),
            final(self).enabled == old(self).enabled,
            final(self).threshold == old(self).threshold,
            final(self).priorities@ == old(self).priorities@,
            match r {
                Option::None => old(self).claim_source() is None && *final(self) == *old(self),
                Option::Some(id) => {
                    &&& old(self).claim_source() == Some(id)
                    &&& 0 < id < 32
                    &&& final(self).pending == old(self).pending & !(1u32 << id)
                    &&& final(self).in_service == old(self).in_service | (1u32 << id)
                    &&& !nth_bit(final(self).pending, id)
                    &&& nth_bit(final(self).in_service, id)
                    &&& forall|j: u32|
                        j < 32 && j != id ==> nth_bit(final(self).pending, j) == nth_bit(
                            old(self).pending,
                            j,
                        ) && nth_bit(final(self).in_service, j) == nth_bit(
                            old(self).in_service,
                            j,
                        )
                },
            },
    {
        let mut best: Option<u32> = None;
        let mut s: u32 = 0;
        while s < 32
            invariant
                self.wf(),
                s <= 32,
                match best {
                    Option::None => self.best_upto(s) is None,
                    Option::Some(b) => 0 < b < 32 && self.best_upto(s) == Some(b),
                },
            decreases 32 - s,
        {
            if self.src_eligible(s) {
                best = match best {
                    None => Some(s),
                    Some(b) => {
                        if self.priorities[s as usize] > self.priorities[b as usize] {
                            Some(s)
                        } else {
                            Some(b)
                        }
                    },
                };
            }
            s = s + 1;
        }
        match best {
            None => None,
            Some(id) => {
                self.pending = self.pending & !(1u32 << id);
                self.in_service = self.in_service | (1u32 << id);
                proof {
                    lemma_bit_ops(old(self).pending, id, id);
                    lemma_bit_ops(old(self).in_service, id, id);
                    assert forall|j: u32| j < 32 && j != id implies nth_bit(self.pending, j)
                        == nth_bit(old(self).pending, j) && nth_bit(self.in_service, j) == nth_bit(
                        old(self).in_service,
                        j,
                    ) by {
                        lemma_bit_ops(old(self).pending, id, j);
                        lemma_bit_ops(old(self).in_service, id, j);
                    }
                }
                Some(id)
            },
        }
    }

    /// Write the claim register: service of source `id` is finished, its
    /// gateway reopens. The id must be the one the claim handed out.
    pub fn complete(&mut self, id: u32)
        requires
            id < 32,
        ensures
            final(self).enabled == old(self).enabled,
            final(self).threshold == old(self).threshold,
            final(self).priorities@ == old(self).priorities@,
            final(self).pending == old(self).pending,
            final(self).in_service == old(self).in_service & !(1u32 << id),
            !nth_bit(final(self).in_service, id),
            forall|j: u32|
                j < 32 && j != id ==> nth_bit(final(self).in_service, j) == nth_bit(
                    old(self).in_service,
                    j,
                ),
    {
        self.in_service = self.in_service & !(1u32 << id);
        proof {
            assert forall|j: u32| j < 32 && j != id implies nth_bit(self.in_service, j) == nth_bit(
                old(self).in_service,
                j,
            ) by {
                lemma_bit_ops(old(self).in_service, id, j);
            }
            lemma_bit_ops(old(self).in_service, id, id);
        }
    }

    /// Address of a hart's machine-mode enable bitmap.
    pub fn menable(hart: u64) -> (r: u64)
        requires
            hart <= 0xffff,
        ensures
            r == PLIC_MENABLE_BASE + hart * 0x100,
    {
        PLIC_MENABLE_BASE + hart * 0x100
    }

    /// Address of a hart's supervisor-mode enable bitmap.
    pub fn senable(hart: u64) -> (r: u64)
        requires
            hart <= 0xffff,
        ensures
            r == PLIC_SENABLE_BASE + hart * 0x100,
    {
        PLIC_SENABLE_BASE + hart * 0x100
    }

    /// Address of a hart's machine-mode threshold register.
    pub fn mpriority(hart: u64) -> (r: u64)
        requires
            hart <= 0xffff,
        ensures
            r == PLIC_MPRIORITY_BASE + hart * 0x2000,
    {
        PLIC_MPRIORITY_BASE + hart * 0x2000
    }

    /// Address of a hart's supervisor-mode threshold register.
    pub fn spriority(hart: u64) -> (r: u64)
        requires
            hart <= 0xffff,
        ensures
            r == PLIC_SPRIORITY_BASE + hart * 0x2000,
    {
        PLIC_SPRIORITY_BASE + hart * 0x2000
    }

    /// Address of a hart's machine-mode claim/complete register.
    pub fn mclaim(hart: u64) -> (r: u64)
        requires
            hart <= 0xffff,
        ensures
            r == PLIC_MCLAIM_BASE + hart * 0x2000,
    {
        PLIC_MCLAIM_BASE + hart * 0x2000
    }

    /// Address of a hart's supervisor-mode claim/complete register.
    pub fn sclaim(hart: u64) -> (r: u64)
        requires
            hart <= 0xffff,
        ensures
            r == PLIC_SCLAIM_BASE + hart * 0x2000,
    {
        PLIC_SCLAIM_BASE + hart * 0x2000
    }
}

/// Prepare the controller for the current core: enable the character
/// device's source, let every priority through, and give that source the
/// lowest active priority.
pub fn hartinit(plic: &mut Plic)
    requires
        old(plic).wf(),
    ensures
        final(plic).wf(),
        nth_bit(final(plic).enabled, InterruptId::Uart0.value()),
        final(plic).threshold == 0,
        final(plic).priorities@[InterruptId::Uart0.value() as int] == 1,
        final(plic).pending == old(plic).pending,
        final(plic).in_service == old(plic).in_service,
{
    plic.enable(InterruptId::Uart0);
    plic.set_threshold(Threshold::All);
    plic.set_priority(InterruptId::Uart0, Priority::One);
}

/// A claimed source was claimable.
pub proof fn lemma_claim_eligible(p: Plic, k: u32, s: u32)
    requires
        p.best_upto(k) == Some(s),
        k <= 32,
    ensures
        p.eligible(s),
        s < k,
    decreases k,
{
    if k > 0 {
        let t = (k - 1) as u32;
        if p.best_upto(k) == p.best_upto(t) {
            lemma_claim_eligible(p, t, s);
        } else {
            assert(p.eligible(t) && s == t);
        }
    }
}

/// A source that cannot be claimed is never what the claim register hands
/// out.
pub proof fn lemma_not_eligible_not_claimed(p: Plic, s: u32)
    requires
        !p.eligible(s),
    ensures
        p.claim_source() != Some(s),
{
    if p.claim_source() == Some(s) {
        lemma_claim_eligible(p, 32, s);
    }
}

/// Claim/complete pairing: once `next` has handed out a source, reading the
/// claim register again does not hand out that source until it is completed
/// — its pending bit is gone, and the closed gateway keeps it that way.
pub proof fn lemma_claim_once(post: Plic, id: u32)
    requires
        id < 32,
        !nth_bit(post.pending, id),
    ensures
        post.claim_source() != Some(id),
{
    lemma_not_eligible_not_claimed(post, id);
}

/// Claim/complete pairing across the device's retries: a claimed source is
/// in service with its pending bit gone, and `raise` behind a closed gateway
/// leaves the claim-relevant registers alone — so however often the device
/// asserts the line, the source stays unclaimable until it is completed.
pub proof fn lemma_gateway_blocks(pre: Plic, post: Plic, id: u32)
    requires
        id < 32,
        nth_bit(pre.in_service, id),
        !nth_bit(pre.pending, id),
        // what `raise(id)` leaves behind when the gateway is closed
        post.pending == pre.pending,
        post.enabled == pre.enabled,
        post.threshold == pre.threshold,
        post.priorities@ == pre.priorities@,
    ensures
        !nth_bit(post.pending, id),
        post.claim_source() != Some(id),
{
    lemma_claim_once(post, id);
}

} // verus!
