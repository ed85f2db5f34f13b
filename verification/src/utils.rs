//! Small arithmetic helpers shared by the allocator.

use vstd::prelude::*;
use vstd::arithmetic::div_mod::{lemma_fundamental_div_mod, lemma_mod_multiples_basic};

verus! {

/// Holds exactly of the powers of two: 1, 2, 4, 8, ...
pub open spec fn is_power_of_two(n: nat) -> bool
    decreases n,
{
    if n == 0 {
        false
    } else if n == 1 {
        true
    } else {
        n % 2 == 0 && is_power_of_two(n / 2)
    }
}

/// Rounds `value` up to the nearest multiple of `alignment`: the result is
/// the one multiple of `alignment` in `[value, value + alignment)`, so a
/// value already aligned comes back unchanged.
pub fn align_to(value: usize, alignment: usize) -> (r: usize)
    requires
        0 < alignment,
        is_power_of_two(alignment as nat),
        value + alignment - 1 <= usize::MAX,
    ensures
        r as int % alignment as int == 0,
        value <= r < value + alignment,
{
    let rem = value % alignment;
    proof {
        lemma_fundamental_div_mod(value as int, alignment as int);
        let q = value as int / alignment as int;
        if rem == 0 {
            lemma_mod_multiples_basic(q, alignment as int);
            assert(q * (alignment as int) == alignment as int * q) by (nonlinear_arith);
        } else {
            lemma_mod_multiples_basic(q + 1, alignment as int);
            assert((q + 1) * (alignment as int) == alignment as int * q + alignment as int)
                by (nonlinear_arith);
        }
    }
    if rem == 0 {
        value
    } else {
        value + (alignment - rem)
    }
}

} // verus!
