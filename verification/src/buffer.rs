//! Buffer-level helpers that need no text container: sizing the line
//! number gutter.

use vstd::prelude::*;

verus! {

/// Ten to the `k`.
pub open spec fn pow10(k: nat) -> nat
    decreases k,
{
    if k == 0 {
        1
    } else {
        10 * pow10((k - 1) as nat)
    }
}

/// The number of decimal digits of `num`: the `r` with
/// `pow10(r - 1) <= num < pow10(r)`. The gutter never needs more than six.
pub fn log10(num: usize) -> (r: usize)
    requires
        1 <= num < 1000000,
    ensures
        1 <= r <= 6,
        pow10((r - 1) as nat) <= num < pow10(r as nat),
{
    proof {
        reveal_with_fuel(pow10, 8);
        assert(pow10(1) == 10);
        assert(pow10(2) == 100);
        assert(pow10(3) == 1000);
        assert(pow10(4) == 10000);
        assert(pow10(5) == 100000);
        assert(pow10(6) == 1000000);
    }
    if num < 10 {
        1
    } else if num < 100 {
        2
    } else if num < 1000 {
        3
    } else if num < 10000 {
        4
    } else if num < 100000 {
        5
    } else {
        6
    }
}

} // verus!
