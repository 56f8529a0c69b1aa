use vstd::prelude::*;
use vstd::arithmetic::div_mod::lemma_div_denominator;
use vstd::arithmetic::mul::{lemma_mul_is_associative, lemma_mul_is_commutative, lemma_mul_inequality};

use crate::error::ErrorCode;

verus! {

/// Oldest quote accepted, in seconds between its observation and now.
pub const MAX_QUOTE_AGE: i64 = 60;

/// A raw oracle quote: the price of one native unit in fiat is
/// `mantissa * 10^exponent`, observed at `observed_at`.
#[derive(Clone, Copy, Debug)]
pub struct OracleQuote {
    pub mantissa: i64,
    pub exponent: i32,
    pub observed_at: i64,
}

pub open spec fn pow10(n: nat) -> nat
    decreases n,
{
    if n == 0 {
        1
    } else {
        10 * pow10((n - 1) as nat)
    }
}

/// Fiat cents per whole native unit for a mantissa and a decimal exponent,
/// rounded down.
pub open spec fn quote_rate(mantissa: int, exponent: int) -> int {
    if exponent < 0 {
        (mantissa * 100) / (pow10((-exponent) as nat) as int)
    } else {
        mantissa * 100 * pow10(exponent as nat)
    }
}

/// A quote is stale when more than the allowed age has passed since it was observed.
pub open spec fn is_stale(observed_at: int, now: int) -> bool {
    now - observed_at > MAX_QUOTE_AGE
}

/// A rate is usable when the mantissa is positive and the rate is a positive `u64`.
pub open spec fn rate_is_usable(mantissa: int, exponent: int) -> bool {
    mantissa > 0 && 0 < quote_rate(mantissa, exponent) <= u64::MAX
}

/// The reason a quote is refused at time `now`, if any.
pub open spec fn quote_error(quote: OracleQuote, now: int) -> Option<ErrorCode> {
    if is_stale(quote.observed_at as int, now) {
        Some(ErrorCode::StalePrice)
    } else if !rate_is_usable(quote.mantissa as int, quote.exponent as int) {
        Some(ErrorCode::InvalidPrice)
    } else {
        None
    }
}

proof fn lemma_pow10_positive(n: nat)
    ensures
        pow10(n) >= 1,
    decreases n,
{
    if n > 0 {
        lemma_pow10_positive((n - 1) as nat);
    }
}

proof fn lemma_pow10_add(a: nat, b: nat)
    ensures
        pow10(a + b) == pow10(a) * pow10(b),
    decreases a,
{
    if a > 0 {
        lemma_pow10_add((a - 1) as nat, b);
        assert((a + b - 1) as nat == (a - 1) as nat + b);
        lemma_mul_is_associative(10, pow10((a - 1) as nat) as int, pow10(b) as int);
    } else {
        assert(pow10(0) == 1);
        assert(a + b == b);
    }
}

/// `x / 10^k`, if it is a positive `u64`.
fn shift_down(x: u128, k: i64) -> (r: Option<u64>)
    requires
        k >= 0,
    ensures
        match r {
            Some(v) => v as int == x as int / (pow10(k as nat) as int) && v > 0,
            None => x as int / (pow10(k as nat) as int) == 0
                || x as int / (pow10(k as nat) as int) > u64::MAX,
        },
{
    let mut v: u128 = x;
    let mut i: i64 = 0;
    assert(pow10(i as nat) == 1);
    while i < k && v > 0
        invariant
            0 <= i <= k,
            v as int == x as int / (pow10(i as nat) as int),
        decreases k - i,
    {
        proof {
            lemma_pow10_positive(i as nat);
            lemma_div_denominator(x as int, pow10(i as nat) as int, 10);
            lemma_mul_is_commutative(pow10(i as nat) as int, 10);
        }
        v = v / 10;
        i = i + 1;
    }
    proof {
        if i < k {
            let rest = (k - i) as nat;
            lemma_pow10_add(i as nat, rest);
            lemma_pow10_positive(i as nat);
            lemma_pow10_positive(rest);
            lemma_div_denominator(x as int, pow10(i as nat) as int, pow10(rest) as int);
            assert(i as nat + rest == k as nat);
        }
    }
    if v == 0 || v > u64::MAX as u128 {
        None
    } else {
        Some(v as u64)
    }
}

/// Bound on a mantissa scaled to cents, and on that value times ten while it still fits a `u64`.
const SCALED_LIMIT: u128 = 1_000_000_000_000_000_000_000_000;

/// `x * 10^k`, if it is a positive `u64`.
fn shift_up(x: u128, k: i64) -> (r: Option<u64>)
    requires
        k >= 0,
        x <= SCALED_LIMIT,
    ensures
        match r {
            Some(v) => v as int == x as int * (pow10(k as nat) as int) && v > 0,
            None => x as int * (pow10(k as nat) as int) == 0
                || x as int * (pow10(k as nat) as int) > u64::MAX,
        },
{
    let mut v: u128 = x;
    let mut i: i64 = 0;
    assert(pow10(i as nat) == 1);
    while i < k && v <= u64::MAX as u128
        invariant
            0 <= i <= k,
            v as int == x as int * (pow10(i as nat) as int),
            v <= SCALED_LIMIT,
        decreases k - i,
    {
        proof {
            lemma_mul_is_associative(x as int, pow10(i as nat) as int, 10);
            lemma_mul_is_commutative(pow10(i as nat) as int, 10);
        }
        v = v * 10;
        i = i + 1;
    }
    proof {
        if i < k {
            let rest = (k - i) as nat;
            lemma_pow10_add(i as nat, rest);
            lemma_pow10_positive(rest);
            lemma_mul_is_associative(x as int, pow10(i as nat) as int, pow10(rest) as int);
            lemma_mul_inequality(1, pow10(rest) as int, v as int);
            lemma_mul_is_commutative(v as int, pow10(rest) as int);
            assert(i as nat + rest == k as nat);
        }
    }
    if v == 0 || v > u64::MAX as u128 {
        None
    } else {
        Some(v as u64)
    }
}

/// Turns a quote into fiat cents per whole native unit, refusing a stale
/// quote first and then one that gives no usable rate.
pub fn normalize_price(quote: &OracleQuote, now: i64) -> (r: Result<u64, ErrorCode>)
    ensures
        match quote_error(*quote, now as int) {
            Some(e) => r == Err::<u64, ErrorCode>(e),
            None => r == Ok::<u64, ErrorCode>(quote_rate(quote.mantissa as int, quote.exponent as int) as u64),
        },
{
    if (now as i128) - (quote.observed_at as i128) > MAX_QUOTE_AGE as i128 {
        return Err(ErrorCode::StalePrice);
    }
    if quote.mantissa <= 0 {
        return Err(ErrorCode::InvalidPrice);
    }
    let scaled: u128 = (quote.mantissa as u128) * 100;
    let shifted = if quote.exponent < 0 {
        shift_down(scaled, -(quote.exponent as i64))
    } else {
        shift_up(scaled, quote.exponent as i64)
    };
    match shifted {
        Some(rate) => Ok(rate),
        None => Err(ErrorCode::InvalidPrice),
    }
}

} // verus!
