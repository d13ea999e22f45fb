//! A small xorshift pseudo-random generator: a standalone utility, outside
//! the boot and memory-correctness paths.

use vstd::prelude::*;

verus! {

/// One xorshift round over a 32-bit state word.
pub open spec fn xorshift_step(x: u32) -> u32 {
    let a = x ^ (x << 13);
    let b = a ^ (a >> 17);
    b ^ (b << 5)
}

/// The generator: a single 32-bit state word. A zero seed is a fixed point
/// and yields only zeros.
pub struct XorShift {
    pub state: u32,
}

impl XorShift {
    pub fn from_seed(seed: u32) -> (r: XorShift)
        ensures
            r.state == seed,
    {
        XorShift { state: seed }
    }

    /// Advance one round and return the new state.
    pub fn next_u32(&mut self) -> (r: u32)
        ensures
            r == xorshift_step(old(self).state),
            final(self).state == r,
    {
        let mut x = self.state;
        x = x ^ (x << 13);
        x = x ^ (x >> 17);
        x = x ^ (x << 5);
        self.state = x;
        x
    }
}

} // verus!
