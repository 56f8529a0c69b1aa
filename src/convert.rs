use vstd::prelude::*;
use vstd::arithmetic::div_mod::lemma_div_is_ordered_by_denominator;
use vstd::arithmetic::mul::lemma_mul_inequality;

verus! {

/// Smallest units in one whole native unit.
pub const UNITS_PER_NATIVE: u64 = 1_000_000_000;

/// Slippage tolerance around the expected amount, in basis points.
pub const SLIPPAGE_BPS: u64 = 200;

/// Basis points in one whole.
pub const BPS_SCALE: u64 = 10_000;

/// Native smallest units owed for a share in fiat cents at a rate in fiat
/// cents per whole native unit, rounded down.
pub open spec fn expected_native_of(share: int, price: int) -> int {
    share * UNITS_PER_NATIVE / price
}

/// Lowest amount accepted around an expected amount.
pub open spec fn band_low(expected: int) -> int {
    expected * (BPS_SCALE - SLIPPAGE_BPS) / (BPS_SCALE as int)
}

/// Highest amount accepted around an expected amount.
pub open spec fn band_high(expected: int) -> int {
    expected * (BPS_SCALE + SLIPPAGE_BPS) / (BPS_SCALE as int)
}

/// An amount is accepted when it lies in the closed band around the expected amount.
pub open spec fn within_band(amount: int, expected: int) -> bool {
    band_low(expected) <= amount <= band_high(expected)
}

/// Largest expected amount: a `u64` share at the lowest rate.
pub open spec fn max_expected() -> int {
    u64::MAX as int * UNITS_PER_NATIVE
}

/// Converts a share in fiat cents into native smallest units at `price`.
pub fn expected_native(share: u64, price: u64) -> (r: u128)
    requires
        price > 0,
    ensures
        r == expected_native_of(share as int, price as int),
        r <= max_expected(),
{
    proof {
        lemma_mul_inequality(share as int, u64::MAX as int, UNITS_PER_NATIVE as int);
    }
    let units: u128 = (share as u128) * (UNITS_PER_NATIVE as u128);
    proof {
        lemma_div_is_ordered_by_denominator(units as int, 1, price as int);
        assert(units as int / 1 == units as int);
    }
    units / (price as u128)
}

/// The closed acceptance band `[low, high]` around an expected amount.
pub fn acceptance_band(expected: u128) -> (r: (u128, u128))
    requires
        expected <= max_expected(),
    ensures
        r.0 == band_low(expected as int),
        r.1 == band_high(expected as int),
{
    proof {
        lemma_mul_inequality(expected as int, max_expected(), (BPS_SCALE - SLIPPAGE_BPS) as int);
        lemma_mul_inequality(expected as int, max_expected(), (BPS_SCALE + SLIPPAGE_BPS) as int);
        assert(max_expected() * (BPS_SCALE + SLIPPAGE_BPS) < u128::MAX);
    }
    let low = expected * ((BPS_SCALE - SLIPPAGE_BPS) as u128) / (BPS_SCALE as u128);
    let high = expected * ((BPS_SCALE + SLIPPAGE_BPS) as u128) / (BPS_SCALE as u128);
    (low, high)
}

/// Whether a submitted amount is accepted for a share at `price`.
pub fn amount_in_band(amount: u64, share: u64, price: u64) -> (r: bool)
    requires
        price > 0,
    ensures
        r == within_band(amount as int, expected_native_of(share as int, price as int)),
{
    let expected = expected_native(share, price);
    let (low, high) = acceptance_band(expected);
    low <= amount as u128 && amount as u128 <= high
}

} // verus!
