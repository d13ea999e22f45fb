//! Interrupt routing below the trap dispatcher: the claim/complete handshake
//! with the external controller and the timer-relay acknowledgement.

use vstd::prelude::*;
use crate::plic::{Plic, InterruptId, nth_bit};

verus! {

/// What servicing an asynchronous trap asks of the unverified edge.
#[derive(Debug, Clone, Copy, PartialEq, Eq, Structural)]
pub enum InterruptAction {
    /// An external interrupt was claimed and completed; the named device
    /// must be serviced (nothing was pending when `None`).
    ServiceDevice(Option<InterruptId>),
    /// A timer tick was relayed as a software interrupt; the dispatcher must
    /// clear the supervisor software-interrupt-pending flag.
    ClearSoftPending,
    /// An asynchronous cause this kernel does not know: logged and dropped,
    /// never fatal.
    UnknownCode(u32),
}

/// Handle one external interrupt: claim the highest-priority pending source,
/// and complete exactly that id, so the source can pend again once serviced.
/// The claimed source's name is returned for the caller to service.
pub fn plic_interrupt(plic: &mut Plic) -> (r: Option<InterruptId>)
    requires
        old(plic).wf(),
    ensures
        final(plic).wf(),
        final(plic).enabled == old(plic).enabled,
        final(plic).threshold == old(plic).threshold,
        final(plic).priorities@ == old(plic).priorities@,
        match old(plic).claim_source() {
            Option::None => r is None && *final(plic) == *old(plic),
            Option::Some(s) => {
                &&& r == Some(if s == 10 {
                    InterruptId::Uart0
                } else {
                    InterruptId::Unknown
                })
                &&& !nth_bit(final(plic).pending, s)
                &&& !nth_bit(final(plic).in_service, s)
                &&& forall|j: u32|
                    j < 32 && j != s ==> nth_bit(final(plic).pending, j) == nth_bit(
                        old(plic).pending,
                        j,
                    ) && nth_bit(final(plic).in_service, j) == nth_bit(old(plic).in_service, j)
            },
        },
{
    match plic.next() {
        Some(id) => {
            let device = InterruptId::from_code(id);
            plic.complete(id);
            Some(device)
        },
        None => None,
    }
}

/// Route one asynchronous cause code: a supervisor external interrupt goes
/// through the controller's claim/complete protocol, a supervisor software
/// interrupt is the timer relay to acknowledge, and anything else is dropped.
pub fn handle_interrupt(code: u32, plic: &mut Plic) -> (r: InterruptAction)
    requires
        old(plic).wf(),
    ensures
        final(plic).wf(),
        code == 9 ==> (match old(plic).claim_source() {
            Option::None => r == InterruptAction::ServiceDevice(Option::<InterruptId>::None)
                && *final(plic) == *old(plic),
            Option::Some(s) => {
                &&& r == InterruptAction::ServiceDevice(Some(if s == 10 {
                    InterruptId::Uart0
                } else {
                    InterruptId::Unknown
                }))
                &&& !nth_bit(final(plic).pending, s)
                &&& !nth_bit(final(plic).in_service, s)
            },
        }),
        code == 1 ==> r == InterruptAction::ClearSoftPending && *final(plic) == *old(plic),
        code != 1 && code != 9 ==> r == InterruptAction::UnknownCode(code) && *final(plic) == *old(
            plic,
        ),
{
    match code {
        9 => {
            let device = plic_interrupt(plic);
            InterruptAction::ServiceDevice(device)
        },
        1 => InterruptAction::ClearSoftPending,
        _ => InterruptAction::UnknownCode(code),
    }
}

} // verus!
