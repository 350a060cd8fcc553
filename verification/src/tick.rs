//! Fixed-step scheduling: how many simulation steps a frame's accumulated
//! time pays for, and what remains in the accumulator.

use vstd::prelude::*;

verus! {

/// Split an accumulator of `acc_ns` nanoseconds into whole fixed steps of
/// `delta_ns` each plus the remainder that stays accumulated: the fixed
/// schedule runs `steps` times this frame and no time is lost.
pub fn fixed_steps(acc_ns: u64, delta_ns: u64) -> (r: (u64, u64))
    requires
        delta_ns > 0,
    ensures
        acc_ns == r.0 * delta_ns + r.1,
        r.1 < delta_ns,
        r.0 == acc_ns as int / delta_ns as int,
{
    let steps = acc_ns / delta_ns;
    let rem = acc_ns % delta_ns;
    proof {
        vstd::arithmetic::div_mod::lemma_fundamental_div_mod(acc_ns as int, delta_ns as int);
        vstd::arithmetic::mul::lemma_mul_is_commutative(steps as int, delta_ns as int);
    }
    (steps, rem)
}

} // verus!
