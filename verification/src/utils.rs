//! Conversions between whole token amounts and base units.

use vstd::prelude::*;

verus! {

/// Ten to the power `e`.
pub open spec fn pow10(e: nat) -> nat
    decreases e,
{
    if e == 0 {
        1
    } else {
        10 * pow10((e - 1) as nat)
    }
}

/// `pow10` grows with its exponent.
pub proof fn lemma_pow10_monotonic(a: nat, b: nat)
    requires
        a <= b,
    ensures
        pow10(a) <= pow10(b),
        pow10(a) >= 1,
    decreases b,
{
    if a < b {
        lemma_pow10_monotonic(a, (b - 1) as nat);
    } else if a > 0 {
        lemma_pow10_monotonic((a - 1) as nat, (a - 1) as nat);
    }
}

/// The number of base units in one whole token of a mint with `decimals`
/// decimal places. The value is computed in 32 bits, which holds up to
/// nine decimal places.
pub fn unit(decimals: u8) -> (r: u64)
    requires
        decimals <= 9,
    ensures
        r == pow10(decimals as nat),
        1 <= r <= 1_000_000_000,
{
    let mut acc: u32 = 1;
    let mut i: u8 = 0;
    while i < decimals
        invariant
            i <= decimals <= 9,
            acc == pow10(i as nat),
            acc <= 1_000_000_000,
        decreases decimals - i,
    {
        proof {
            lemma_pow10_monotonic((i + 1) as nat, 9);
            reveal_with_fuel(pow10, 10);
        }
        acc = acc * 10;
        i = i + 1;
    }
    proof {
        lemma_pow10_monotonic(0, decimals as nat);
    }
    acc as u64
}

/// `val` whole tokens expressed in base units.
pub fn to_base(val: u64, decimals: u8) -> (r: u64)
    requires
        decimals <= 9,
        val * pow10(decimals as nat) <= u64::MAX,
    ensures
        r == val * pow10(decimals as nat),
{
    val * unit(decimals)
}

} // verus!
