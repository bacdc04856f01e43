//! Constant-product curve arithmetic: x * y = k.
//!
//! Every operation is checked: products of two `u64` values are formed in
//! `u128`, and each result that must fit back into `u64` is tested before
//! it is narrowed. The contracts are stated over mathematical integers.

use vstd::prelude::*;
use vstd::arithmetic::div_mod::*;
use vstd::arithmetic::mul::*;
use crate::errors::AmmError;

verus! {

/// Basis points in one whole (100%).
pub const BPS_DENOMINATOR: u64 = 10_000;

/// Result of a swap quote: how much of the output token the trader
/// receives, and how much of the fee (in input-token units) is taken
/// before the swap math runs.
#[derive(Debug, Clone, Copy, PartialEq, Eq, Structural)]
pub struct SwapQuote {
    pub amount_out: u64,
    pub fee_amount: u64,
}

// ---------------------------------------------------------------------
// (a * b) / c
// ---------------------------------------------------------------------

/// floor(a * b / c) over the integers.
pub open spec fn mul_div(a: int, b: int, c: int) -> int {
    a * b / c
}

/// What `mul_div_u64` returns: a zero divisor is reported as missing
/// liquidity, a quotient above `u64::MAX` as overflow.
pub open spec fn mul_div_spec(a: u64, b: u64, c: u64) -> Result<u64, AmmError> {
    if c == 0 {
        Err(AmmError::InsufficientLiquidity)
    } else if mul_div(a as int, b as int, c as int) > u64::MAX {
        Err(AmmError::MathOverflow)
    } else {
        Ok(mul_div(a as int, b as int, c as int) as u64)
    }
}

/// The product of two `u64` values fits in a `u128`.
pub proof fn lemma_u64_product_fits_u128(a: u64, b: u64)
    ensures
        0 <= a * b <= u64::MAX * u64::MAX,
        u64::MAX * u64::MAX < u128::MAX,
{
    lemma_mul_upper_bound(a as int, u64::MAX as int, b as int, u64::MAX as int);
    lemma_mul_nonnegative(a as int, b as int);
}

/// `floor(a * b / c) <= a` when `b <= c`.
pub proof fn lemma_mul_div_le_left(a: int, b: int, c: int)
    requires
        a >= 0,
        0 <= b <= c,
        c > 0,
    ensures
        0 <= mul_div(a, b, c) <= a,
{
    lemma_mul_inequality(b, c, a);
    lemma_mul_is_commutative(a, b);
    lemma_mul_is_commutative(a, c);
    lemma_mul_nonnegative(a, b);
    lemma_div_is_ordered(a * b, a * c, c);
    lemma_div_multiples_vanish(a, c);
    lemma_div_pos_is_pos(a * b, c);
    lemma_mul_is_commutative(c, a);
}

/// `floor(n / d) < m` when `n < d * m`.
pub proof fn lemma_div_below(n: int, d: int, m: int)
    requires
        n >= 0,
        d > 0,
        n < d * m,
    ensures
        n / d < m,
{
    lemma_fundamental_div_mod(n, d);
    lemma_mod_bound(n, d);
    if n / d >= m {
        assert(d * (n / d) >= d * m) by (nonlinear_arith)
            requires d > 0, n / d >= m;
    }
}

/// Computes `(a * b) / c` through a `u128` product, returning a `u64`.
/// Used wherever two `u64` values are multiplied before dividing, since the
/// product can exceed `u64::MAX` even when the final result fits.
pub fn mul_div_u64(a: u64, b: u64, c: u64) -> (result: Result<u64, AmmError>)
    ensures
        result == mul_div_spec(a, b, c),
{
    if c == 0 {
        return Err(AmmError::InsufficientLiquidity);
    }
    proof {
        lemma_u64_product_fits_u128(a, b);
    }
    let product: u128 = match (a as u128).checked_mul(b as u128) {
        Some(p) => p,
        None => return Err(AmmError::MathOverflow),
    };
    let quotient: u128 = match product.checked_div(c as u128) {
        Some(q) => q,
        None => return Err(AmmError::MathOverflow),
    };
    if quotient > u64::MAX as u128 {
        Err(AmmError::MathOverflow)
    } else {
        Ok(quotient as u64)
    }
}

// ---------------------------------------------------------------------
// Swap quote
// ---------------------------------------------------------------------

/// Fee taken from a swap's input, in input-token units:
/// floor(amount_in * fee_bps / 10000).
pub open spec fn swap_fee(amount_in: int, fee_bps: int) -> int {
    mul_div(amount_in, fee_bps, BPS_DENOMINATOR as int)
}

/// The part of a swap's input that the curve prices.
pub open spec fn swap_input_after_fee(amount_in: int, fee_bps: int) -> int {
    amount_in - swap_fee(amount_in, fee_bps)
}

/// Output of a constant-product swap after the fee is deducted from the
/// input: floor(reserve_out * in' / (reserve_in + in')).
pub open spec fn swap_output(amount_in: int, reserve_in: int, reserve_out: int, fee_bps: int) -> int {
    let after = swap_input_after_fee(amount_in, fee_bps);
    reserve_out * after / (reserve_in + after)
}

/// The curve's product once the priced input is added and the output taken.
pub open spec fn swap_product_after(amount_in: int, reserve_in: int, reserve_out: int, fee_bps: int) -> int {
    let after = swap_input_after_fee(amount_in, fee_bps);
    (reserve_in + after) * (reserve_out - swap_output(amount_in, reserve_in, reserve_out, fee_bps))
}

/// What `get_swap_quote` returns.
pub open spec fn swap_quote_spec(amount_in: u64, reserve_in: u64, reserve_out: u64, fee_bps: u16) -> Result<SwapQuote, AmmError> {
    if amount_in == 0 {
        Err(AmmError::ZeroSwapAmount)
    } else if reserve_in == 0 || reserve_out == 0 {
        Err(AmmError::InsufficientLiquidity)
    } else if fee_bps >= BPS_DENOMINATOR {
        Err(AmmError::FeeTooHigh)
    } else {
        Ok(SwapQuote {
            amount_out: swap_output(amount_in as int, reserve_in as int, reserve_out as int, fee_bps as int) as u64,
            fee_amount: swap_fee(amount_in as int, fee_bps as int) as u64,
        })
    }
}

/// Facts about a swap on valid inputs: the fee is at most the input, the
/// output is strictly below the output reserve, and the curve's product
/// does not decrease and grows by less than the new input reserve.
pub proof fn lemma_swap_bounds(amount_in: int, reserve_in: int, reserve_out: int, fee_bps: int)
    requires
        amount_in >= 0,
        reserve_in > 0,
        reserve_out > 0,
        0 <= fee_bps < BPS_DENOMINATOR,
    ensures
        0 <= swap_fee(amount_in, fee_bps) <= amount_in,
        0 <= swap_output(amount_in, reserve_in, reserve_out, fee_bps) < reserve_out,
        swap_product_after(amount_in, reserve_in, reserve_out, fee_bps) >= reserve_in * reserve_out,
        swap_product_after(amount_in, reserve_in, reserve_out, fee_bps)
            < reserve_in * reserve_out + reserve_in + swap_input_after_fee(amount_in, fee_bps),
{
    lemma_mul_div_le_left(amount_in, fee_bps, BPS_DENOMINATOR as int);
    let after = swap_input_after_fee(amount_in, fee_bps);
    let d = reserve_in + after;
    let n = reserve_out * after;
    let q = n / d;
    assert(0 <= n) by (nonlinear_arith)
        requires n == reserve_out * after, reserve_out > 0, after >= 0;
    assert(n < d * reserve_out) by (nonlinear_arith)
        requires n == reserve_out * after, d == reserve_in + after, reserve_in > 0, reserve_out > 0, after >= 0;
    lemma_div_below(n, d, reserve_out);
    lemma_div_pos_is_pos(n, d);
    lemma_fundamental_div_mod(n, d);
    lemma_mod_bound(n, d);
    assert(d * (reserve_out - q) >= reserve_in * reserve_out) by (nonlinear_arith)
        requires
            n == d * q + n % d,
            n % d >= 0,
            n == reserve_out * after,
            d == reserve_in + after,
    ;
    assert(d * (reserve_out - q) < reserve_in * reserve_out + d) by (nonlinear_arith)
        requires
            n == d * q + n % d,
            n % d < d,
            n == reserve_out * after,
            d == reserve_in + after,
    ;
}

/// On `u64` inputs the curve's product after a swap always fits in a
/// `u128`, so the quote's invariant check can never overflow.
proof fn lemma_swap_product_fits(amount_in: u64, reserve_in: u64, reserve_out: u64, fee_bps: u16)
    requires
        reserve_in > 0,
        reserve_out > 0,
        fee_bps < BPS_DENOMINATOR,
    ensures
        swap_product_after(amount_in as int, reserve_in as int, reserve_out as int, fee_bps as int) <= u128::MAX,
{
    lemma_swap_bounds(amount_in as int, reserve_in as int, reserve_out as int, fee_bps as int);
    lemma_u64_product_fits_u128(reserve_in, reserve_out);
}

/// Computes the output amount of a constant-product swap given the input
/// amount and current reserves, after deducting `fee_bps` from the input.
///
/// amount_in_after_fee = amount_in - amount_in * fee_bps / 10000
/// amount_out = reserve_out * amount_in_after_fee / (reserve_in + amount_in_after_fee)
///
/// The fee is deducted before applying x * y = k, so it stays in the pool
/// and grows its reserves rather than being skimmed from the output.
pub fn get_swap_quote(amount_in: u64, reserve_in: u64, reserve_out: u64, fee_bps: u16) -> (result: Result<SwapQuote, AmmError>)
    ensures
        result == swap_quote_spec(amount_in, reserve_in, reserve_out, fee_bps),
{
    if amount_in == 0 {
        return Err(AmmError::ZeroSwapAmount);
    }
    if reserve_in == 0 || reserve_out == 0 {
        return Err(AmmError::InsufficientLiquidity);
    }
    let fee_bps_u64 = fee_bps as u64;
    if fee_bps_u64 >= BPS_DENOMINATOR {
        return Err(AmmError::FeeTooHigh);
    }
    proof {
        lemma_swap_bounds(amount_in as int, reserve_in as int, reserve_out as int, fee_bps as int);
        lemma_swap_product_fits(amount_in, reserve_in, reserve_out, fee_bps);
    }

    // Fee taken from the input, in input-token units.
    let fee_amount = match mul_div_u64(amount_in, fee_bps_u64, BPS_DENOMINATOR) {
        Ok(f) => f,
        Err(e) => return Err(e),
    };
    let amount_in_after_fee = match amount_in.checked_sub(fee_amount) {
        Some(v) => v,
        None => return Err(AmmError::MathUnderflow),
    };

    let new_reserve_in = match (reserve_in as u128).checked_add(amount_in_after_fee as u128) {
        Some(v) => v,
        None => return Err(AmmError::MathOverflow),
    };
    proof {
        lemma_u64_product_fits_u128(reserve_out, amount_in_after_fee);
        lemma_u64_product_fits_u128(reserve_in, reserve_out);
    }
    let numerator = match (reserve_out as u128).checked_mul(amount_in_after_fee as u128) {
        Some(v) => v,
        None => return Err(AmmError::MathOverflow),
    };
    let amount_out_u128 = match numerator.checked_div(new_reserve_in) {
        Some(v) => v,
        None => return Err(AmmError::MathOverflow),
    };
    if amount_out_u128 > u64::MAX as u128 {
        return Err(AmmError::MathOverflow);
    }
    let amount_out = amount_out_u128 as u64;

    // The curve's product must not decrease.
    let k_before = match (reserve_in as u128).checked_mul(reserve_out as u128) {
        Some(v) => v,
        None => return Err(AmmError::MathOverflow),
    };
    let new_reserve_out = match (reserve_out as u128).checked_sub(amount_out as u128) {
        Some(v) => v,
        None => return Err(AmmError::MathUnderflow),
    };
    let k_after = match new_reserve_in.checked_mul(new_reserve_out) {
        Some(v) => v,
        None => return Err(AmmError::MathOverflow),
    };
    if k_after < k_before {
        return Err(AmmError::MathOverflow);
    }

    Ok(SwapQuote { amount_out, fee_amount })
}

// ---------------------------------------------------------------------
// Integer square root
// ---------------------------------------------------------------------

/// `root` is the floor of the square root of `value`.
pub open spec fn is_floor_sqrt(value: int, root: int) -> bool {
    &&& 0 <= root
    &&& root * root <= value
    &&& value < (root + 1) * (root + 1)
}

/// At most one integer is the floor square root of a value.
pub proof fn lemma_floor_sqrt_unique(value: int, r1: int, r2: int)
    requires
        is_floor_sqrt(value, r1),
        is_floor_sqrt(value, r2),
    ensures
        r1 == r2,
{
    if r1 < r2 {
        assert((r1 + 1) * (r1 + 1) <= r2 * r2) by (nonlinear_arith)
            requires 0 <= r1, r1 + 1 <= r2;
    } else if r2 < r1 {
        assert((r2 + 1) * (r2 + 1) <= r1 * r1) by (nonlinear_arith)
            requires 0 <= r2, r2 + 1 <= r1;
    }
}

/// One Newton step never falls below the floor square root:
/// `value < (y + 1)^2` where `y = (x + value / x) / 2`.
proof fn lemma_newton_step_stays_above(value: int, x: int)
    requires
        value >= 1,
        x >= 1,
    ensures
        value < ((x + value / x) / 2 + 1) * ((x + value / x) / 2 + 1),
{
    let q = value / x;
    let y = (x + q) / 2;
    let t = y + 1;
    lemma_fundamental_div_mod(value, x);
    lemma_mod_bound(value, x);
    assert(value < x * (q + 1)) by (nonlinear_arith)
        requires value == x * q + value % x, value % x < x;
    assert(q >= 0) by {
        lemma_div_pos_is_pos(value, x);
    }
    assert(x + q + 1 <= 2 * t);
    assert(x * (q + 1) <= t * t) by (nonlinear_arith)
        requires x >= 1, q >= 0, x + (q + 1) <= 2 * t,
    {
        let a = x;
        let b = q + 1;
        assert((a - b) * (a - b) >= 0);
        assert((a + b) * (a + b) >= 4 * (a * b));
        assert((a + b) * (a + b) <= (2 * t) * (2 * t));
    }
}

/// When the Newton step no longer decreases, the iterate is at most the
/// square root.
proof fn lemma_newton_fixpoint_below(value: int, x: int)
    requires
        value >= 0,
        x >= 1,
        (x + value / x) / 2 >= x,
    ensures
        x * x <= value,
{
    let q = value / x;
    lemma_fundamental_div_mod(value, x);
    lemma_mod_bound(value, x);
    if x * x > value {
        assert(q < x) by (nonlinear_arith)
            requires value == x * q + value % x, value % x >= 0, x * x > value, x >= 1;
        assert((x + q) / 2 < x);
    }
}

/// floor((a + b) / 2), computed without forming `a + b`, so it cannot
/// overflow.
fn half_sum(a: u128, b: u128) -> (result: u128)
    ensures
        result == (a + b) / 2,
{
    a / 2 + b / 2 + (a % 2 + b % 2) / 2
}

/// Integer square root by Newton's method on `u128`.
/// Returns floor(sqrt(value)) for every `u128`.
pub fn integer_sqrt(value: u128) -> (root: u128)
    ensures
        is_floor_sqrt(value as int, root as int),
{
    if value == 0 {
        assert(is_floor_sqrt(0, 0)) by (nonlinear_arith);
        return 0;
    }
    let mut x: u128 = value;
    assert(value / value == 1) by {
        lemma_div_by_self(value as int);
    }
    // (x + 1) / 2, the first Newton iterate from x = value
    let mut y: u128 = half_sum(x, 1);
    assert(value < (x + 1) * (x + 1)) by (nonlinear_arith)
        requires x == value, value >= 1;
    while y < x
        invariant
            1 <= x <= value,
            y == (x + value / x) / 2,
            value < (x + 1) * (x + 1),
        decreases x,
    {
        proof {
            lemma_newton_step_stays_above(value as int, x as int);
        }
        x = y;
        assert(x >= 1) by (nonlinear_arith)
            requires value < (x + 1) * (x + 1), value >= 1, x >= 0;
        y = half_sum(x, value / x);
    }
    proof {
        lemma_newton_fixpoint_below(value as int, x as int);
    }
    x
}

// ---------------------------------------------------------------------
// Floor square root as a function
// ---------------------------------------------------------------------

/// Every natural number has a floor square root.
pub proof fn lemma_floor_sqrt_exists(value: nat)
    ensures
        exists|r: int| #[trigger] is_floor_sqrt(value as int, r),
    decreases value,
{
    if value == 0 {
        assert(is_floor_sqrt(0, 0)) by (nonlinear_arith);
    } else {
        lemma_floor_sqrt_exists((value - 1) as nat);
        let r = choose|r: int| #[trigger] is_floor_sqrt(value - 1, r);
        if (r + 1) * (r + 1) <= value {
            assert(value < (r + 2) * (r + 2)) by (nonlinear_arith)
                requires value - 1 < (r + 1) * (r + 1), r >= 0;
            assert(is_floor_sqrt(value as int, r + 1));
        } else {
            assert(is_floor_sqrt(value as int, r));
        }
    }
}

/// floor(sqrt(value)).
pub open spec fn floor_sqrt(value: int) -> int {
    choose|r: int| #[trigger] is_floor_sqrt(value, r)
}

/// `floor_sqrt` is the floor square root, and the only one.
pub proof fn lemma_floor_sqrt(value: int, root: int)
    requires
        value >= 0,
    ensures
        is_floor_sqrt(value, floor_sqrt(value)),
        is_floor_sqrt(value, root) ==> root == floor_sqrt(value),
{
    lemma_floor_sqrt_exists(value as nat);
    if is_floor_sqrt(value, root) {
        lemma_floor_sqrt_unique(value, root, floor_sqrt(value));
    }
}

/// The floor square root of a product of two nonzero `u64` values is at
/// least one and fits in a `u64`.
pub proof fn lemma_sqrt_of_u64_product(a: u64, b: u64)
    requires
        a > 0,
        b > 0,
    ensures
        1 <= floor_sqrt(a * b) <= u64::MAX,
{
    lemma_u64_product_fits_u128(a, b);
    lemma_floor_sqrt(a * b, 0);
    let r = floor_sqrt(a * b);
    assert(a * b >= 1) by (nonlinear_arith)
        requires a > 0, b > 0;
    if r > u64::MAX {
        assert(r * r > u64::MAX * u64::MAX) by (nonlinear_arith)
            requires r > u64::MAX;
    }
    if r == 0 {
        assert((r + 1) * (r + 1) == 1);
    }
}

// ---------------------------------------------------------------------
// Deposits
// ---------------------------------------------------------------------

/// LP tokens minted for a deposit into a pool that already has LP supply:
/// the smaller of the two pro-rata shares floor(S * a / ra), floor(S * b / rb).
pub open spec fn proportional_lp(amount_a: int, amount_b: int, reserve_a: int, reserve_b: int, lp_supply: int) -> int {
    let from_a = mul_div(lp_supply, amount_a, reserve_a);
    let from_b = mul_div(lp_supply, amount_b, reserve_b);
    if from_a <= from_b { from_a } else { from_b }
}

/// What `get_deposit_lp_amount` returns.
pub open spec fn deposit_lp_spec(amount_a: u64, amount_b: u64, reserve_a: u64, reserve_b: u64, lp_supply: u64) -> Result<u64, AmmError> {
    if amount_a == 0 || amount_b == 0 {
        Err(AmmError::ZeroDepositAmount)
    } else if lp_supply == 0 {
        Ok(floor_sqrt(amount_a * amount_b) as u64)
    } else if reserve_a == 0 || reserve_b == 0 {
        Err(AmmError::InsufficientLiquidity)
    } else if mul_div(lp_supply as int, amount_a as int, reserve_a as int) > u64::MAX
        || mul_div(lp_supply as int, amount_b as int, reserve_b as int) > u64::MAX {
        Err(AmmError::MathOverflow)
    } else if proportional_lp(amount_a as int, amount_b as int, reserve_a as int, reserve_b as int, lp_supply as int) == 0 {
        Err(AmmError::ZeroLpTokensMinted)
    } else {
        Ok(proportional_lp(amount_a as int, amount_b as int, reserve_a as int, reserve_b as int, lp_supply as int) as u64)
    }
}

/// Computes LP tokens to mint for a balanced (paired) deposit.
///
/// First deposit into an empty pool: LP minted = floor(sqrt(amount_a * amount_b)),
/// so the initial LP supply does not depend on the scale of the two seed amounts.
///
/// Later deposits: LP minted is the smaller of the two pro-rata shares
/// (amount_a / reserve_a, amount_b / reserve_b) of the LP supply, which
/// protects existing LPs if the caller supplies an imbalanced pair.
pub fn get_deposit_lp_amount(amount_a: u64, amount_b: u64, reserve_a: u64, reserve_b: u64, lp_supply: u64) -> (result: Result<u64, AmmError>)
    ensures
        result == deposit_lp_spec(amount_a, amount_b, reserve_a, reserve_b, lp_supply),
{
    if amount_a == 0 || amount_b == 0 {
        return Err(AmmError::ZeroDepositAmount);
    }

    if lp_supply == 0 {
        // Bootstrap case: pool is empty.
        proof {
            lemma_u64_product_fits_u128(amount_a, amount_b);
        }
        let product = match (amount_a as u128).checked_mul(amount_b as u128) {
            Some(p) => p,
            None => return Err(AmmError::MathOverflow),
        };
        let lp_amount = integer_sqrt(product);
        proof {
            lemma_floor_sqrt(product as int, lp_amount as int);
            lemma_sqrt_of_u64_product(amount_a, amount_b);
        }
        if lp_amount > u64::MAX as u128 {
            return Err(AmmError::MathOverflow);
        }
        let lp_amount_u64 = lp_amount as u64;
        if lp_amount_u64 == 0 {
            return Err(AmmError::ZeroLpTokensMinted);
        }
        return Ok(lp_amount_u64);
    }

    if reserve_a == 0 || reserve_b == 0 {
        return Err(AmmError::InsufficientLiquidity);
    }

    let lp_from_a = match mul_div_u64(lp_supply, amount_a, reserve_a) {
        Ok(v) => v,
        Err(e) => return Err(e),
    };
    let lp_from_b = match mul_div_u64(lp_supply, amount_b, reserve_b) {
        Ok(v) => v,
        Err(e) => return Err(e),
    };

    let lp_amount = if lp_from_a <= lp_from_b { lp_from_a } else { lp_from_b };
    if lp_amount == 0 {
        return Err(AmmError::ZeroLpTokensMinted);
    }
    Ok(lp_amount)
}

/// Given a desired deposit amount of one side, computes the matching amount
/// of the other side that keeps the deposit proportional to the current
/// reserves: floor(amount_known * reserve_other / reserve_known).
pub fn get_proportional_amount(amount_known: u64, reserve_known: u64, reserve_other: u64) -> (result: Result<u64, AmmError>)
    ensures
        result == mul_div_spec(amount_known, reserve_other, reserve_known),
        reserve_known == 0 ==> result == Err::<u64, AmmError>(AmmError::InsufficientLiquidity),
{
    if reserve_known == 0 {
        return Err(AmmError::InsufficientLiquidity);
    }
    mul_div_u64(amount_known, reserve_other, reserve_known)
}

// ---------------------------------------------------------------------
// Withdrawals
// ---------------------------------------------------------------------

/// What `get_withdraw_amounts` returns: the pro-rata share
/// (floor(ra * lp / S), floor(rb * lp / S)) of both reserves.
pub open spec fn withdraw_spec(lp_amount: u64, lp_supply: u64, reserve_a: u64, reserve_b: u64) -> Result<(u64, u64), AmmError> {
    if lp_amount == 0 {
        Err(AmmError::ZeroLpBurnAmount)
    } else if lp_supply == 0 {
        Err(AmmError::InsufficientLiquidity)
    } else if lp_amount > lp_supply {
        Err(AmmError::InsufficientLpBalance)
    } else {
        Ok((
            mul_div(reserve_a as int, lp_amount as int, lp_supply as int) as u64,
            mul_div(reserve_b as int, lp_amount as int, lp_supply as int) as u64,
        ))
    }
}

/// Computes the (amount_a, amount_b) a withdrawing LP receives for burning
/// `lp_amount` out of `lp_supply` total, pro-rata against current reserves.
pub fn get_withdraw_amounts(lp_amount: u64, lp_supply: u64, reserve_a: u64, reserve_b: u64) -> (result: Result<(u64, u64), AmmError>)
    ensures
        result == withdraw_spec(lp_amount, lp_supply, reserve_a, reserve_b),
{
    if lp_amount == 0 {
        return Err(AmmError::ZeroLpBurnAmount);
    }
    if lp_supply == 0 {
        return Err(AmmError::InsufficientLiquidity);
    }
    if lp_amount > lp_supply {
        return Err(AmmError::InsufficientLpBalance);
    }
    proof {
        lemma_mul_div_le_left(reserve_a as int, lp_amount as int, lp_supply as int);
        lemma_mul_div_le_left(reserve_b as int, lp_amount as int, lp_supply as int);
    }
    let amount_a = match mul_div_u64(reserve_a, lp_amount, lp_supply) {
        Ok(v) => v,
        Err(e) => return Err(e),
    };
    let amount_b = match mul_div_u64(reserve_b, lp_amount, lp_supply) {
        Ok(v) => v,
        Err(e) => return Err(e),
    };
    Ok((amount_a, amount_b))
}

// ---------------------------------------------------------------------
// Single-sided deposits
// ---------------------------------------------------------------------

/// What `get_single_sided_deposit_lp_amount` returns: half of the input
/// (rounded down) is quoted as a swap, and the other half together with the
/// swap's output is priced as a paired deposit against the post-swap
/// reserves.
pub open spec fn single_sided_lp_spec(amount_in: u64, reserve_in: u64, reserve_out: u64, lp_supply: u64, fee_bps: u16) -> Result<u64, AmmError> {
    if amount_in == 0 {
        Err(AmmError::ZeroDepositAmount)
    } else if reserve_in == 0 || reserve_out == 0 {
        Err(AmmError::InsufficientLiquidity)
    } else {
        let half_in = amount_in / 2;
        let remaining_in = (amount_in - half_in) as u64;
        match swap_quote_spec(half_in, reserve_in, reserve_out, fee_bps) {
            Err(e) => Err(e),
            Ok(quote) => if reserve_in + half_in > u64::MAX {
                Err(AmmError::MathOverflow)
            } else {
                deposit_lp_spec(
                    remaining_in,
                    quote.amount_out,
                    (reserve_in + half_in) as u64,
                    (reserve_out - quote.amount_out) as u64,
                    lp_supply,
                )
            },
        }
    }
}

/// LP tokens minted when depositing only one side of the pair. Modeled as
/// an implicit swap of half the deposit into the other token followed by a
/// balanced deposit against the post-swap reserves; the fee is charged on
/// the implicit-swap half.
pub fn get_single_sided_deposit_lp_amount(
    amount_in: u64,
    reserve_in: u64,
    reserve_out: u64,
    lp_supply: u64,
    fee_bps: u16,
) -> (result: Result<u64, AmmError>)
    ensures
        result == single_sided_lp_spec(amount_in, reserve_in, reserve_out, lp_supply, fee_bps),
{
    if amount_in == 0 {
        return Err(AmmError::ZeroDepositAmount);
    }
    if reserve_in == 0 || reserve_out == 0 {
        return Err(AmmError::InsufficientLiquidity);
    }

    // Swap half the input to the other side at the current pool price.
    let half_in = amount_in / 2;
    let remaining_in = amount_in - half_in;

    let quote = match get_swap_quote(half_in, reserve_in, reserve_out, fee_bps) {
        Ok(q) => q,
        Err(e) => return Err(e),
    };
    proof {
        lemma_swap_bounds(half_in as int, reserve_in as int, reserve_out as int, fee_bps as int);
    }

    // Reserves after the implicit swap.
    let new_reserve_in = match reserve_in.checked_add(half_in) {
        Some(v) => v,
        None => return Err(AmmError::MathOverflow),
    };
    let new_reserve_out = match reserve_out.checked_sub(quote.amount_out) {
        Some(v) => v,
        None => return Err(AmmError::MathUnderflow),
    };

    get_deposit_lp_amount(remaining_in, quote.amount_out, new_reserve_in, new_reserve_out, lp_supply)
}

} // verus!
