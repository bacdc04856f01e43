//! Laws of the pool's arithmetic: what every successful swap, deposit and
//! withdrawal keeps, stated over the specifications in `math`.

use vstd::prelude::*;
use vstd::arithmetic::div_mod::*;
use vstd::arithmetic::mul::*;
use crate::errors::AmmError;
use crate::instructions::deposit::{deposit_spec, Deposit, DepositMode};
use crate::instructions::swap::{lemma_protocol_cut_within_fee, swap_spec, Swap, SwapDirection};
use crate::instructions::withdraw::{withdraw_handler_spec, Withdraw};
use crate::state::lp_reserve;
use crate::math::{
    deposit_lp_spec, lemma_mul_div_le_left, lemma_sqrt_of_u64_product, lemma_swap_bounds, mul_div,
    single_sided_lp_spec, swap_input_after_fee, swap_quote_spec, withdraw_spec, BPS_DENOMINATOR,
};

verus! {

// ---------------------------------------------------------------------
// Laws of the curve
// ---------------------------------------------------------------------

/// `q <= n / d` whenever `q * d <= n`.
proof fn lemma_le_div(q: int, n: int, d: int)
    requires
        d > 0,
        q * d <= n,
    ensures
        q <= n / d,
{
    lemma_div_is_ordered(q * d, n, d);
    lemma_div_multiples_vanish(q, d);
    lemma_mul_is_commutative(q, d);
}

/// `floor(n / d) * d <= n` for `n >= 0`.
proof fn lemma_div_times_le(n: int, d: int)
    requires
        n >= 0,
        d > 0,
    ensures
        (n / d) * d <= n,
{
    lemma_fundamental_div_mod(n, d);
    lemma_mod_bound(n, d);
    lemma_mul_is_commutative(n / d, d);
}

/// The curve pays out no less for a larger priced input.
proof fn lemma_output_monotone_in_input(reserve_out: int, reserve_in: int, a1: int, a2: int)
    requires
        reserve_in > 0,
        reserve_out >= 0,
        0 <= a1 <= a2,
    ensures
        reserve_out * a1 / (reserve_in + a1) <= reserve_out * a2 / (reserve_in + a2),
{
    let n1 = reserve_out * a1;
    let d1 = reserve_in + a1;
    let n2 = reserve_out * a2;
    let d2 = reserve_in + a2;
    assert(n1 >= 0) by (nonlinear_arith)
        requires n1 == reserve_out * a1, reserve_out >= 0, a1 >= 0;
    lemma_div_times_le(n1, d1);
    let q1 = n1 / d1;
    assert(n1 * d2 <= n2 * d1) by (nonlinear_arith)
        requires
            n1 == reserve_out * a1, n2 == reserve_out * a2,
            d1 == reserve_in + a1, d2 == reserve_in + a2,
            reserve_in > 0, reserve_out >= 0, 0 <= a1 <= a2,
    ;
    assert(q1 * d2 <= n2) by (nonlinear_arith)
        requires q1 * d1 <= n1, n1 * d2 <= n2 * d1, d1 > 0, d2 > 0,
    {
        assert((q1 * d1) * d2 <= n1 * d2);
        assert((q1 * d2) * d1 <= n2 * d1);
    }
    lemma_le_div(q1, n2, d2);
}

/// A swap that succeeds takes a fee no larger than the input, pays out
/// strictly less than the output reserve, and leaves the pool's product of
/// reserves no smaller than before: both the product over the priced input
/// (the quote's own check) and over the full input, which is what the
/// vault actually receives since the fee stays in the pool. When a fee is
/// charged, the product over the full input strictly grows.
pub proof fn lemma_swap_never_decreases_product(amount_in: u64, reserve_in: u64, reserve_out: u64, fee_bps: u16)
    requires
        swap_quote_spec(amount_in, reserve_in, reserve_out, fee_bps) is Ok,
    ensures
        ({
            let quote = swap_quote_spec(amount_in, reserve_in, reserve_out, fee_bps)->Ok_0;
            &&& quote.fee_amount <= amount_in
            &&& quote.amount_out < reserve_out
            &&& (reserve_in + amount_in - quote.fee_amount) * (reserve_out - quote.amount_out)
                >= reserve_in * reserve_out
            &&& (reserve_in + amount_in) * (reserve_out - quote.amount_out)
                >= reserve_in * reserve_out
            &&& quote.fee_amount > 0 ==> (reserve_in + amount_in) * (reserve_out - quote.amount_out)
                > reserve_in * reserve_out
        }),
{
    lemma_swap_bounds(amount_in as int, reserve_in as int, reserve_out as int, fee_bps as int);
    let quote = swap_quote_spec(amount_in, reserve_in, reserve_out, fee_bps)->Ok_0;
    let d = reserve_in + amount_in - quote.fee_amount;
    let e = reserve_out - quote.amount_out;
    assert((reserve_in + amount_in) * e == d * e + quote.fee_amount * e) by (nonlinear_arith)
        requires d == reserve_in + amount_in - quote.fee_amount;
    assert(quote.fee_amount * e >= 0) by (nonlinear_arith)
        requires e >= 0;
    if quote.fee_amount > 0 {
        assert(quote.fee_amount * e > 0) by (nonlinear_arith)
            requires quote.fee_amount > 0, e > 0;
    }
}

/// A higher fee never buys a larger output, and never charges a smaller
/// fee, for the same input and reserves.
pub proof fn lemma_higher_fee_never_pays_more(amount_in: u64, reserve_in: u64, reserve_out: u64, fee_low: u16, fee_high: u16)
    requires
        fee_low <= fee_high,
        swap_quote_spec(amount_in, reserve_in, reserve_out, fee_low) is Ok,
        swap_quote_spec(amount_in, reserve_in, reserve_out, fee_high) is Ok,
    ensures
        swap_quote_spec(amount_in, reserve_in, reserve_out, fee_high)->Ok_0.amount_out
            <= swap_quote_spec(amount_in, reserve_in, reserve_out, fee_low)->Ok_0.amount_out,
        swap_quote_spec(amount_in, reserve_in, reserve_out, fee_high)->Ok_0.fee_amount
            >= swap_quote_spec(amount_in, reserve_in, reserve_out, fee_low)->Ok_0.fee_amount,
{
    let a = amount_in as int;
    lemma_swap_bounds(a, reserve_in as int, reserve_out as int, fee_low as int);
    lemma_swap_bounds(a, reserve_in as int, reserve_out as int, fee_high as int);
    lemma_mul_inequality(fee_low as int, fee_high as int, a);
    lemma_mul_is_commutative(fee_low as int, a);
    lemma_mul_is_commutative(fee_high as int, a);
    lemma_div_is_ordered(a * fee_low, a * fee_high, BPS_DENOMINATOR as int);
    lemma_output_monotone_in_input(
        reserve_out as int,
        reserve_in as int,
        swap_input_after_fee(a, fee_high as int),
        swap_input_after_fee(a, fee_low as int),
    );
}

/// The priced input `amount - floor(amount * fee / 10000)` never falls
/// when the input grows or the fee falls.
proof fn lemma_input_after_fee_monotone(x1: int, x2: int, fee_high: int, fee_low: int)
    requires
        0 <= x1 <= x2,
        0 <= fee_low <= fee_high < BPS_DENOMINATOR,
    ensures
        0 <= swap_input_after_fee(x1, fee_high) <= swap_input_after_fee(x2, fee_low),
{
    let d = BPS_DENOMINATOR as int;
    lemma_mul_div_le_left(x1, fee_high, d);
    lemma_mul_div_le_left(x1, fee_low, d);
    lemma_mul_div_le_left(x2, fee_low, d);
    // a lower fee leaves more of the same input
    lemma_mul_inequality(fee_low, fee_high, x1);
    lemma_mul_is_commutative(fee_low, x1);
    lemma_mul_is_commutative(fee_high, x1);
    lemma_div_is_ordered(x1 * fee_low, x1 * fee_high, d);
    // a larger input leaves at least as much at the same fee:
    // floor(x2 f / d) - floor(x1 f / d) <= x2 - x1
    let q1 = x1 * fee_low / d;
    let q2 = x2 * fee_low / d;
    lemma_mul_nonnegative(x1, fee_low);
    lemma_mul_nonnegative(x2, fee_low);
    lemma_div_times_le(x2 * fee_low, d);
    lemma_fundamental_div_mod(x1 * fee_low, d);
    lemma_mod_bound(x1 * fee_low, d);
    assert(x1 * fee_low < (q1 + 1) * d) by (nonlinear_arith)
        requires x1 * fee_low == d * q1 + (x1 * fee_low) % d, (x1 * fee_low) % d < d;
    assert((x2 - x1) * fee_low <= (x2 - x1) * d) by (nonlinear_arith)
        requires x2 - x1 >= 0, fee_low <= d;
    assert(x2 * fee_low - x1 * fee_low == (x2 - x1) * fee_low) by (nonlinear_arith);
    assert((q2 - q1) * d < (x2 - x1 + 1) * d) by (nonlinear_arith)
        requires
            q2 * d <= x2 * fee_low,
            x1 * fee_low < (q1 + 1) * d,
            x2 * fee_low - x1 * fee_low == (x2 - x1) * fee_low,
            (x2 - x1) * fee_low <= (x2 - x1) * d,
    ;
    assert(q2 - q1 <= x2 - x1) by (nonlinear_arith)
        requires (q2 - q1) * d < (x2 - x1 + 1) * d, d > 0;
}

/// A quote never pays out less for more input, a lower fee, a smaller
/// input reserve or a larger output reserve.
pub proof fn lemma_swap_quote_monotone(
    amount_small: u64,
    reserve_in_large: u64,
    reserve_out_small: u64,
    fee_high: u16,
    amount_large: u64,
    reserve_in_small: u64,
    reserve_out_large: u64,
    fee_low: u16,
)
    requires
        amount_small <= amount_large,
        reserve_in_small <= reserve_in_large,
        reserve_out_small <= reserve_out_large,
        fee_low <= fee_high,
        swap_quote_spec(amount_small, reserve_in_large, reserve_out_small, fee_high) is Ok,
        swap_quote_spec(amount_large, reserve_in_small, reserve_out_large, fee_low) is Ok,
    ensures
        swap_quote_spec(amount_small, reserve_in_large, reserve_out_small, fee_high)->Ok_0.amount_out
            <= swap_quote_spec(amount_large, reserve_in_small, reserve_out_large, fee_low)->Ok_0.amount_out,
{
    let a1 = swap_input_after_fee(amount_small as int, fee_high as int);
    let a2 = swap_input_after_fee(amount_large as int, fee_low as int);
    lemma_input_after_fee_monotone(amount_small as int, amount_large as int, fee_high as int, fee_low as int);
    lemma_swap_bounds(amount_small as int, reserve_in_large as int, reserve_out_small as int, fee_high as int);
    lemma_swap_bounds(amount_large as int, reserve_in_small as int, reserve_out_large as int, fee_low as int);
    let q1 = reserve_out_small as int;
    let q2 = reserve_out_large as int;
    let r1 = reserve_in_large as int;
    let r2 = reserve_in_small as int;
    // more priced input
    lemma_output_monotone_in_input(q1, r1, a1, a2);
    // smaller input reserve
    lemma_mul_nonnegative(q1, a2);
    lemma_div_is_ordered_by_denominator(q1 * a2, r2 + a2, r1 + a2);
    // larger output reserve
    lemma_mul_inequality(q1, q2, a2);
    lemma_div_is_ordered(q1 * a2, q2 * a2, r2 + a2);
}

/// Splitting a withdrawal in two never pays out more than burning the same
/// LP amount at once: the second part is priced against what the first
/// leaves behind.
pub proof fn lemma_split_withdrawal_never_pays_more(
    lp_first: u64,
    lp_second: u64,
    lp_supply: u64,
    reserve_a: u64,
    reserve_b: u64,
)
    requires
        lp_first + lp_second <= lp_supply,
        withdraw_spec(lp_first, lp_supply, reserve_a, reserve_b) is Ok,
        withdraw_spec(
            lp_second,
            (lp_supply - lp_first) as u64,
            (reserve_a - withdraw_spec(lp_first, lp_supply, reserve_a, reserve_b)->Ok_0.0) as u64,
            (reserve_b - withdraw_spec(lp_first, lp_supply, reserve_a, reserve_b)->Ok_0.1) as u64,
        ) is Ok,
    ensures
        ({
            let first = withdraw_spec(lp_first, lp_supply, reserve_a, reserve_b)->Ok_0;
            let second = withdraw_spec(
                lp_second,
                (lp_supply - lp_first) as u64,
                (reserve_a - first.0) as u64,
                (reserve_b - first.1) as u64,
            )->Ok_0;
            let whole = withdraw_spec((lp_first + lp_second) as u64, lp_supply, reserve_a, reserve_b);
            &&& whole is Ok
            &&& first.0 + second.0 <= whole->Ok_0.0
            &&& first.1 + second.1 <= whole->Ok_0.1
        }),
{
    let first = withdraw_spec(lp_first, lp_supply, reserve_a, reserve_b)->Ok_0;
    lemma_withdraw_is_pro_rata(lp_first, lp_supply, reserve_a, reserve_b);
    let rest_a = (reserve_a - first.0) as u64;
    let rest_b = (reserve_b - first.1) as u64;
    let rest_supply = (lp_supply - lp_first) as u64;
    lemma_withdraw_is_pro_rata(lp_second, rest_supply, rest_a, rest_b);
    let second = withdraw_spec(lp_second, rest_supply, rest_a, rest_b)->Ok_0;
    lemma_mul_div_le_left(reserve_a as int, lp_first + lp_second, lp_supply as int);
    lemma_mul_div_le_left(reserve_b as int, lp_first + lp_second, lp_supply as int);
    lemma_split_side(lp_first as int, lp_second as int, lp_supply as int, reserve_a as int, first.0 as int, second.0 as int);
    lemma_split_side(lp_first as int, lp_second as int, lp_supply as int, reserve_b as int, first.1 as int, second.1 as int);
}

/// One side of the split-withdrawal law: with `a1 * s <= r * l1` and
/// `a2 * (s - l1) <= (r - a1) * l2`, `a1 + a2 <= floor(r * (l1 + l2) / s)`.
proof fn lemma_split_side(l1: int, l2: int, s: int, r: int, a1: int, a2: int)
    requires
        l1 > 0,
        l2 > 0,
        l1 + l2 <= s,
        r >= 0,
        0 <= a1 <= r,
        a2 >= 0,
        a1 * s <= r * l1,
        a2 * (s - l1) <= (r - a1) * l2,
    ensures
        a1 + a2 <= mul_div(r, l1 + l2, s),
{
    let d = s - l1;
    assert(a2 * s * d <= (r - a1) * l2 * s) by (nonlinear_arith)
        requires a2 * d <= (r - a1) * l2, s > 0;
    assert(a1 * s * (d - l2) <= r * l1 * (d - l2)) by (nonlinear_arith)
        requires a1 * s <= r * l1, d - l2 >= 0;
    assert((a1 + a2) * s * d == a1 * s * (d - l2) + a1 * s * l2 + a2 * s * d) by (nonlinear_arith);
    assert((r - a1) * l2 * s == r * l2 * s - a1 * s * l2) by (nonlinear_arith);
    assert(r * l1 * (d - l2) + r * l2 * s == r * (l1 + l2) * d) by (nonlinear_arith)
        requires d == s - l1;
    assert((a1 + a2) * s * d <= r * (l1 + l2) * d);
    assert((a1 + a2) * s <= r * (l1 + l2)) by (nonlinear_arith)
        requires (a1 + a2) * s * d <= r * (l1 + l2) * d, d > 0;
    lemma_le_div(a1 + a2, r * (l1 + l2), s);
}

/// A deposit into a pool with LP supply never dilutes existing LPs: the
/// share of the supply minted is at most the share of each reserve put in,
/// `minted / supply <= amount_a / reserve_a` and likewise for token B.
pub proof fn lemma_deposit_never_dilutes(amount_a: u64, amount_b: u64, reserve_a: u64, reserve_b: u64, lp_supply: u64)
    requires
        lp_supply > 0,
        deposit_lp_spec(amount_a, amount_b, reserve_a, reserve_b, lp_supply) is Ok,
    ensures
        ({
            let minted = deposit_lp_spec(amount_a, amount_b, reserve_a, reserve_b, lp_supply)->Ok_0;
            &&& minted > 0
            &&& minted * reserve_a <= amount_a * lp_supply
            &&& minted * reserve_b <= amount_b * lp_supply
        }),
{
    let minted = deposit_lp_spec(amount_a, amount_b, reserve_a, reserve_b, lp_supply)->Ok_0;
    let from_a = mul_div(lp_supply as int, amount_a as int, reserve_a as int);
    let from_b = mul_div(lp_supply as int, amount_b as int, reserve_b as int);
    lemma_mul_nonnegative(lp_supply as int, amount_a as int);
    lemma_mul_nonnegative(lp_supply as int, amount_b as int);
    lemma_div_times_le(lp_supply * amount_a, reserve_a as int);
    lemma_div_times_le(lp_supply * amount_b, reserve_b as int);
    lemma_mul_inequality(minted as int, from_a, reserve_a as int);
    lemma_mul_inequality(minted as int, from_b, reserve_b as int);
    lemma_mul_is_commutative(lp_supply as int, amount_a as int);
    lemma_mul_is_commutative(lp_supply as int, amount_b as int);
}

/// A withdrawal pays out no more than the burned share of each reserve,
/// never more than the reserve itself, and burning the whole supply pays
/// out both reserves in full.
pub proof fn lemma_withdraw_is_pro_rata(lp_amount: u64, lp_supply: u64, reserve_a: u64, reserve_b: u64)
    requires
        withdraw_spec(lp_amount, lp_supply, reserve_a, reserve_b) is Ok,
    ensures
        ({
            let (out_a, out_b) = withdraw_spec(lp_amount, lp_supply, reserve_a, reserve_b)->Ok_0;
            &&& out_a <= reserve_a
            &&& out_b <= reserve_b
            &&& out_a * lp_supply <= reserve_a * lp_amount
            &&& out_b * lp_supply <= reserve_b * lp_amount
            &&& lp_amount == lp_supply ==> out_a == reserve_a && out_b == reserve_b
        }),
{
    lemma_mul_div_le_left(reserve_a as int, lp_amount as int, lp_supply as int);
    lemma_mul_div_le_left(reserve_b as int, lp_amount as int, lp_supply as int);
    lemma_mul_nonnegative(reserve_a as int, lp_amount as int);
    lemma_mul_nonnegative(reserve_b as int, lp_amount as int);
    lemma_div_times_le(reserve_a * lp_amount, lp_supply as int);
    lemma_div_times_le(reserve_b * lp_amount, lp_supply as int);
    if lp_amount == lp_supply {
        lemma_div_multiples_vanish(reserve_a as int, lp_supply as int);
        lemma_div_multiples_vanish(reserve_b as int, lp_supply as int);
        lemma_mul_is_commutative(reserve_a as int, lp_supply as int);
        lemma_mul_is_commutative(reserve_b as int, lp_supply as int);
    }
}

/// Depositing and then burning exactly the LP tokens that deposit minted
/// never returns more of either token than was put in. This holds for
/// deposits into a pool with LP supply, and for the first deposit into an
/// empty pool.
pub proof fn lemma_deposit_then_withdraw_returns_at_most_deposit(
    amount_a: u64,
    amount_b: u64,
    reserve_a: u64,
    reserve_b: u64,
    lp_supply: u64,
)
    requires
        deposit_lp_spec(amount_a, amount_b, reserve_a, reserve_b, lp_supply) is Ok,
        lp_supply > 0 || (reserve_a == 0 && reserve_b == 0),
        lp_supply + deposit_lp_spec(amount_a, amount_b, reserve_a, reserve_b, lp_supply)->Ok_0 <= u64::MAX,
        reserve_a + amount_a <= u64::MAX,
        reserve_b + amount_b <= u64::MAX,
    ensures
        ({
            let minted = deposit_lp_spec(amount_a, amount_b, reserve_a, reserve_b, lp_supply)->Ok_0;
            let back = withdraw_spec(
                minted,
                (lp_supply + minted) as u64,
                (reserve_a + amount_a) as u64,
                (reserve_b + amount_b) as u64,
            );
            &&& back is Ok
            &&& back->Ok_0.0 <= amount_a
            &&& back->Ok_0.1 <= amount_b
        }),
{
    let minted = deposit_lp_spec(amount_a, amount_b, reserve_a, reserve_b, lp_supply)->Ok_0;
    let total = lp_supply + minted;
    if lp_supply > 0 {
        lemma_deposit_never_dilutes(amount_a, amount_b, reserve_a, reserve_b, lp_supply);
    } else {
        lemma_sqrt_of_u64_product(amount_a, amount_b);
        assert(minted * reserve_a == 0);
        assert(minted * reserve_b == 0);
    }
    assert(minted >= 1);
    // (reserve + amount) * minted <= amount * (supply + minted)
    assert((reserve_a + amount_a) * minted <= amount_a * total) by (nonlinear_arith)
        requires minted * reserve_a <= amount_a * lp_supply, total == lp_supply + minted;
    assert((reserve_b + amount_b) * minted <= amount_b * total) by (nonlinear_arith)
        requires minted * reserve_b <= amount_b * lp_supply, total == lp_supply + minted;
    lemma_div_is_ordered((reserve_a + amount_a) * minted, amount_a * total, total);
    lemma_div_is_ordered((reserve_b + amount_b) * minted, amount_b * total, total);
    lemma_div_multiples_vanish(amount_a as int, total);
    lemma_div_multiples_vanish(amount_b as int, total);
    lemma_mul_is_commutative(amount_a as int, total);
    lemma_mul_is_commutative(amount_b as int, total);
}

// ---------------------------------------------------------------------
// The value of an LP share never falls
// ---------------------------------------------------------------------
//
// The value of one LP share is measured by sqrt(k) / supply, where k is the
// product of the reserves. The laws below state that a deposit, a
// single-sided deposit and a withdrawal never lower it; squared, in
// integers: k_after * supply_before^2 >= k_before * supply_after^2.

/// Multiplying two inequalities between nonnegative integers.
proof fn lemma_mul_le_both(a: int, b: int, c: int, d: int)
    requires
        0 <= a <= b,
        0 <= c <= d,
    ensures
        a * c <= b * d,
{
    lemma_mul_inequality(a, b, c);
    lemma_mul_inequality(c, d, b);
    lemma_mul_is_commutative(b, c);
    lemma_mul_is_commutative(b, d);
}

/// A paired deposit into a pool with LP supply never lowers the value of an
/// LP share: (ra + a)(rb + b) S^2 >= ra rb (S + minted)^2.
pub proof fn lemma_deposit_keeps_share_value(amount_a: u64, amount_b: u64, reserve_a: u64, reserve_b: u64, lp_supply: u64)
    requires
        lp_supply > 0,
        deposit_lp_spec(amount_a, amount_b, reserve_a, reserve_b, lp_supply) is Ok,
    ensures
        ({
            let minted = deposit_lp_spec(amount_a, amount_b, reserve_a, reserve_b, lp_supply)->Ok_0;
            (reserve_a + amount_a) * (reserve_b + amount_b) * (lp_supply * lp_supply)
                >= (reserve_a * reserve_b) * ((lp_supply + minted) * (lp_supply + minted))
        }),
{
    lemma_deposit_never_dilutes(amount_a, amount_b, reserve_a, reserve_b, lp_supply);
    let minted = deposit_lp_spec(amount_a, amount_b, reserve_a, reserve_b, lp_supply)->Ok_0;
    let s = lp_supply as int;
    let t = s + minted;
    // reserve * (S + minted) <= (reserve + amount) * S, for each side
    assert(reserve_a * t <= (reserve_a + amount_a) * s) by (nonlinear_arith)
        requires minted * reserve_a <= amount_a * s, t == s + minted;
    assert(reserve_b * t <= (reserve_b + amount_b) * s) by (nonlinear_arith)
        requires minted * reserve_b <= amount_b * s, t == s + minted;
    lemma_mul_nonnegative(reserve_a as int, t);
    lemma_mul_nonnegative(reserve_b as int, t);
    lemma_mul_le_both(reserve_a * t, (reserve_a + amount_a) * s, reserve_b * t, (reserve_b + amount_b) * s);
    assert((reserve_a * t) * (reserve_b * t) == (reserve_a * reserve_b) * (t * t)) by (nonlinear_arith);
    assert(((reserve_a + amount_a) * s) * ((reserve_b + amount_b) * s)
        == (reserve_a + amount_a) * (reserve_b + amount_b) * (s * s)) by (nonlinear_arith);
}

/// A withdrawal never lowers the value of the remaining LP shares:
/// (ra - out_a)(rb - out_b) S^2 >= ra rb (S - burned)^2.
pub proof fn lemma_withdraw_keeps_share_value(lp_amount: u64, lp_supply: u64, reserve_a: u64, reserve_b: u64)
    requires
        withdraw_spec(lp_amount, lp_supply, reserve_a, reserve_b) is Ok,
    ensures
        ({
            let (out_a, out_b) = withdraw_spec(lp_amount, lp_supply, reserve_a, reserve_b)->Ok_0;
            (reserve_a - out_a) * (reserve_b - out_b) * (lp_supply * lp_supply)
                >= (reserve_a * reserve_b) * ((lp_supply - lp_amount) * (lp_supply - lp_amount))
        }),
{
    lemma_withdraw_is_pro_rata(lp_amount, lp_supply, reserve_a, reserve_b);
    let (out_a, out_b) = withdraw_spec(lp_amount, lp_supply, reserve_a, reserve_b)->Ok_0;
    let s = lp_supply as int;
    let t = s - lp_amount;
    assert(reserve_a * t <= (reserve_a - out_a) * s) by (nonlinear_arith)
        requires out_a * s <= reserve_a * lp_amount, t == s - lp_amount;
    assert(reserve_b * t <= (reserve_b - out_b) * s) by (nonlinear_arith)
        requires out_b * s <= reserve_b * lp_amount, t == s - lp_amount;
    lemma_mul_nonnegative(reserve_a as int, t);
    lemma_mul_nonnegative(reserve_b as int, t);
    lemma_mul_le_both(reserve_a * t, (reserve_a - out_a) * s, reserve_b * t, (reserve_b - out_b) * s);
    assert((reserve_a * t) * (reserve_b * t) == (reserve_a * reserve_b) * (t * t)) by (nonlinear_arith);
    assert(((reserve_a - out_a) * s) * ((reserve_b - out_b) * s)
        == (reserve_a - out_a) * (reserve_b - out_b) * (s * s)) by (nonlinear_arith);
}

/// Arithmetic core of the single-sided law: with `h` swapped and `rest`
/// deposited directly, an LP amount bounded by both pro-rata limits keeps
/// (R + h + rest) S^2 >= R (S + L)^2.
proof fn lemma_single_sided_core(r: int, h: int, rest: int, s: int, l: int)
    requires
        r > 0,
        h >= 1,
        rest == h || rest == h + 1,
        s > 0,
        l >= 0,
        l * (r + h) <= rest * s,
        l * r <= h * s,
    ensures
        (r + h + rest) * (s * s) >= r * ((s + l) * (s + l)),
{
    let lr = l * r;
    assert(r * ((s + l) * (s + l)) == r * (s * s) + lr * (2 * s + l)) by (nonlinear_arith)
        requires lr == l * r;
    assert((r + h + rest) * (s * s) == r * (s * s) + (h + rest) * (s * s)) by (nonlinear_arith);
    assert(lr >= 0) by (nonlinear_arith)
        requires lr == l * r, l >= 0, r > 0;
    if rest == h {
        // l * r <= h * (s - l)
        assert(lr <= h * (s - l)) by (nonlinear_arith)
            requires lr == l * r, l * (r + h) <= h * s;
        assert(l <= s) by (nonlinear_arith)
            requires l * (r + h) <= h * s, r > 0, h >= 1, l >= 0, s > 0;
        assert(lr * (2 * s + l) <= h * (s - l) * (2 * s + l)) by (nonlinear_arith)
            requires lr <= h * (s - l), 2 * s + l >= 0;
        assert(h * (s - l) * (2 * s + l) <= 2 * h * (s * s)) by (nonlinear_arith)
            requires h >= 1, l >= 0, s > 0, l <= s;
        assert(lr * (2 * s + l) <= (h + rest) * (s * s)) by (nonlinear_arith)
            requires
                lr * (2 * s + l) <= h * (s - l) * (2 * s + l),
                h * (s - l) * (2 * s + l) <= 2 * h * (s * s),
                rest == h,
        ;
    } else if r >= h * h {
        // h * l <= s, from h^2 * l <= r * l <= h * s
        assert(h * h * l <= h * s) by (nonlinear_arith)
            requires r >= h * h, l >= 0, l * r <= h * s;
        assert(h * l <= s) by (nonlinear_arith)
            requires h * h * l <= h * s, h >= 1;
        assert(lr * (2 * s + l) <= h * s * (2 * s + l)) by (nonlinear_arith)
            requires lr <= h * s, 2 * s + l >= 0;
        assert(h * s * (2 * s + l) <= (2 * h + 1) * (s * s)) by (nonlinear_arith)
            requires h * l <= s, s > 0, h >= 1;
        assert(lr * (2 * s + l) <= (h + rest) * (s * s)) by (nonlinear_arith)
            requires
                lr * (2 * s + l) <= h * s * (2 * s + l),
                h * s * (2 * s + l) <= (2 * h + 1) * (s * s),
                rest == h + 1,
        ;
    } else {
        let d = r + h;
        let ld = l * d;
        let m = (h + 1) * s;
        assert(ld <= m);
        assert(ld >= 0) by (nonlinear_arith)
            requires ld == l * d, l >= 0, d > 0;
        // r * (l d) * (2 s d + l d) <= r * m * (2 s d + m)
        assert(r * ld * (2 * s * d + ld) <= r * m * (2 * s * d + m)) by (nonlinear_arith)
            requires 0 <= ld <= m, r > 0, s > 0, d > 0;
        // the real inequality, valid when r <= h^2
        assert(r * (h + 1) * (2 * r + 3 * h + 1) <= (2 * h + 1) * (d * d)) by (nonlinear_arith)
            requires r <= h * h, r > 0, h >= 1, d == r + h,
        {
            assert((2 * h + 1) * (d * d) - r * (h + 1) * (2 * r + 3 * h + 1)
                == (h * h - r) * (r + 2 * h + 1));
            assert((h * h - r) * (r + 2 * h + 1) >= 0);
        }
        let x = 2 * r + 3 * h + 1;
        let c = r * (h + 1);
        assert(2 * s * d + m == s * x) by (nonlinear_arith)
            requires m == (h + 1) * s, d == r + h, x == 2 * r + 3 * h + 1;
        assert(r * m == c * s) by (nonlinear_arith)
            requires m == (h + 1) * s, c == r * (h + 1);
        assert((c * s) * (s * x) == (s * s) * (c * x)) by (nonlinear_arith);
        assert(c * x == r * (h + 1) * (2 * r + 3 * h + 1)) by (nonlinear_arith)
            requires c == r * (h + 1), x == 2 * r + 3 * h + 1;
        assert(r * m * (2 * s * d + m) == (s * s) * (r * (h + 1) * (2 * r + 3 * h + 1)));
        assert(r * ld * (2 * s * d + ld) == (lr * (2 * s + l)) * (d * d)) by (nonlinear_arith)
            requires ld == l * d, lr == l * r;
        assert((lr * (2 * s + l)) * (d * d) <= ((2 * h + 1) * (s * s)) * (d * d)) by (nonlinear_arith)
            requires
                (lr * (2 * s + l)) * (d * d) <= (s * s) * (r * (h + 1) * (2 * r + 3 * h + 1)),
                r * (h + 1) * (2 * r + 3 * h + 1) <= (2 * h + 1) * (d * d),
                s * s >= 0,
        ;
        assert(lr * (2 * s + l) <= (2 * h + 1) * (s * s)) by (nonlinear_arith)
            requires
                (lr * (2 * s + l)) * (d * d) <= ((2 * h + 1) * (s * s)) * (d * d),
                d > 0,
        ;
        assert(lr * (2 * s + l) <= (h + rest) * (s * s)) by (nonlinear_arith)
            requires lr * (2 * s + l) <= (2 * h + 1) * (s * s), rest == h + 1;
    }
}

/// A single-sided deposit into a pool with LP supply never lowers the
/// value of an LP share: with the whole input added to its reserve and the
/// other reserve unchanged, (r_in + amount_in) r_out S^2 >= r_in r_out (S + minted)^2.
/// The fee on the implicit swap is what keeps existing LPs whole.
pub proof fn lemma_single_sided_deposit_keeps_share_value(
    amount_in: u64,
    reserve_in: u64,
    reserve_out: u64,
    lp_supply: u64,
    fee_bps: u16,
)
    requires
        lp_supply > 0,
        single_sided_lp_spec(amount_in, reserve_in, reserve_out, lp_supply, fee_bps) is Ok,
    ensures
        ({
            let minted = single_sided_lp_spec(amount_in, reserve_in, reserve_out, lp_supply, fee_bps)->Ok_0;
            (reserve_in + amount_in) * reserve_out * (lp_supply * lp_supply)
                >= (reserve_in * reserve_out) * ((lp_supply + minted) * (lp_supply + minted))
        }),
{
    let h = amount_in / 2;
    let rest = (amount_in - h) as u64;
    let quote = swap_quote_spec(h, reserve_in, reserve_out, fee_bps)->Ok_0;
    let out = quote.amount_out;
    let new_in = (reserve_in + h) as u64;
    let new_out = (reserve_out - out) as u64;
    let minted = single_sided_lp_spec(amount_in, reserve_in, reserve_out, lp_supply, fee_bps)->Ok_0;
    lemma_swap_bounds(h as int, reserve_in as int, reserve_out as int, fee_bps as int);
    assert(deposit_lp_spec(rest, out, new_in, new_out, lp_supply) == Ok::<u64, AmmError>(minted));
    lemma_deposit_never_dilutes(rest, out, new_in, new_out, lp_supply);

    let r = reserve_in as int;
    let q = reserve_out as int;
    let s = lp_supply as int;
    let l = minted as int;
    let a = swap_input_after_fee(h as int, fee_bps as int);
    // out * (r + a) <= q * a, so out * r <= (q - out) * a
    lemma_mul_nonnegative(q, a);
    lemma_div_times_le(q * a, r + a);
    lemma_mul_is_commutative(out as int, r + a);
    assert(out * r <= (q - out) * a) by (nonlinear_arith)
        requires out * (r + a) <= q * a;
    // l * (q - out) <= out * s, hence l * r <= a * s <= h * s
    assert(l * r <= a * s) by (nonlinear_arith)
        requires
            l * (q - out) <= out * s,
            out * r <= (q - out) * a,
            q - out > 0,
            r > 0,
            s > 0,
            l >= 0,
    {
        assert(l * r * (q - out) <= out * s * r);
        assert(out * s * r <= (q - out) * a * s);
        assert((l * r) * (q - out) <= (a * s) * (q - out));
    }
    assert(a * s <= h * s) by (nonlinear_arith)
        requires a <= h, s > 0;
    lemma_single_sided_core(r, h as int, rest as int, s, l);
    assert(h + rest == amount_in);
    lemma_mul_le_both(r * ((s + l) * (s + l)), (r + amount_in) * (s * s), q, q);
    assert((r * ((s + l) * (s + l))) * q == (r * q) * ((s + l) * (s + l))) by (nonlinear_arith);
    assert(((r + amount_in) * (s * s)) * q == (r + amount_in) * q * (s * s)) by (nonlinear_arith);
}

/// Swapping into the other token and immediately back never returns more
/// than was put in: the pool offers no round-trip profit. The second swap
/// is quoted against the reserves the first leaves behind, with the whole
/// first input in the input vault.
pub proof fn lemma_round_trip_swap_never_profits(amount_in: u64, reserve_in: u64, reserve_out: u64, fee_bps: u16)
    requires
        swap_quote_spec(amount_in, reserve_in, reserve_out, fee_bps) is Ok,
        reserve_in + amount_in <= u64::MAX,
        swap_quote_spec(
            swap_quote_spec(amount_in, reserve_in, reserve_out, fee_bps)->Ok_0.amount_out,
            (reserve_out - swap_quote_spec(amount_in, reserve_in, reserve_out, fee_bps)->Ok_0.amount_out) as u64,
            (reserve_in + amount_in) as u64,
            fee_bps,
        ) is Ok,
    ensures
        swap_quote_spec(
            swap_quote_spec(amount_in, reserve_in, reserve_out, fee_bps)->Ok_0.amount_out,
            (reserve_out - swap_quote_spec(amount_in, reserve_in, reserve_out, fee_bps)->Ok_0.amount_out) as u64,
            (reserve_in + amount_in) as u64,
            fee_bps,
        )->Ok_0.amount_out <= amount_in,
{
    let x = amount_in as int;
    let r = reserve_in as int;
    let q = reserve_out as int;
    let first = swap_quote_spec(amount_in, reserve_in, reserve_out, fee_bps)->Ok_0;
    let y = first.amount_out as int;
    lemma_swap_bounds(x, r, q, fee_bps as int);
    let xp = swap_input_after_fee(x, fee_bps as int);
    // y * (r + x') <= q * x'
    lemma_mul_nonnegative(q, xp);
    lemma_div_times_le(q * xp, r + xp);
    lemma_mul_is_commutative(y, r + xp);
    // y * (r + x) <= q * x
    assert(y * (r + x) <= q * x) by (nonlinear_arith)
        requires y * (r + xp) <= q * xp, 0 <= xp <= x, 0 <= y < q,
    {
        assert(y * (x - xp) <= q * (x - xp));
    }

    let r2 = q - y;
    let q2 = r + x;
    lemma_swap_bounds(y, r2, q2, fee_bps as int);
    let yp = swap_input_after_fee(y, fee_bps as int);
    let d2 = r2 + yp;
    let second = swap_quote_spec(first.amount_out, r2 as u64, q2 as u64, fee_bps)->Ok_0;
    let z = second.amount_out as int;
    lemma_mul_nonnegative(q2, yp);
    lemma_div_times_le(q2 * yp, d2);
    lemma_mul_is_commutative(z, d2);
    // y' * q <= y * d2, since y' <= y < q
    assert(yp * q <= y * d2) by (nonlinear_arith)
        requires d2 == q - y + yp, 0 <= yp <= y, y < q;
    assert(z <= x) by (nonlinear_arith)
        requires
            z * d2 <= q2 * yp,
            yp * q <= y * d2,
            y * q2 <= q * x,
            d2 > 0,
            q > 0,
            q2 > 0,
            z >= 0,
            yp >= 0,
    {
        assert(z * d2 * q <= q2 * yp * q);
        assert(q2 * (yp * q) <= q2 * (y * d2));
        assert((y * q2) * d2 <= (q * x) * d2);
        assert((z * q) * d2 <= (x * q) * d2);
        assert(z * q <= x * q);
    }
}

// ---------------------------------------------------------------------
// Protocol fees are never LP principal
// ---------------------------------------------------------------------
//
// The protocol's earmarked fees stay in the vaults until collected. LPs
// are paid, and trades are priced, only out of the LP reserves: each vault
// less the fees earmarked on its side. So after every successful
// withdrawal, deposit or swap on vaults that cover their earmarked fees,
// they still do, and collecting the fees never takes LP principal.

/// A withdrawal pays LPs only out of the LP reserves, never out of the
/// protocol's earmarked fees; so vaults that covered those fees before
/// still cover them afterwards.
pub proof fn lemma_withdraw_leaves_fees_backed(accounts: Withdraw, lp_amount: u64, min_amount_a_out: u64, min_amount_b_out: u64)
    requires
        withdraw_handler_spec(accounts, lp_amount, min_amount_a_out, min_amount_b_out) is Ok,
    ensures
        ({
            let outcome = withdraw_handler_spec(accounts, lp_amount, min_amount_a_out, min_amount_b_out)->Ok_0;
            &&& outcome.amount_a <= lp_reserve(accounts.vault_a_amount, accounts.pool.protocol_fees_a)
            &&& outcome.amount_b <= lp_reserve(accounts.vault_b_amount, accounts.pool.protocol_fees_b)
            &&& accounts.pool.fees_backed(accounts.vault_a_amount as int, accounts.vault_b_amount as int)
                ==> accounts.pool.fees_backed(
                    accounts.vault_a_amount - outcome.amount_a,
                    accounts.vault_b_amount - outcome.amount_b,
                )
        }),
{
    let (reserve_a, reserve_b) = accounts.pool.lp_reserves_spec(accounts.vault_a_amount, accounts.vault_b_amount);
    lemma_withdraw_is_pro_rata(lp_amount, accounts.lp_supply, reserve_a, reserve_b);
}

/// A deposit only adds to the vaults: vaults that covered the protocol's
/// earmarked fees before still cover them afterwards.
pub proof fn lemma_deposit_leaves_fees_backed(
    accounts: Deposit,
    mode: DepositMode,
    amount_a: u64,
    amount_b: u64,
    min_lp_out: u64,
)
    requires
        accounts.pool.fees_backed(accounts.vault_a_amount as int, accounts.vault_b_amount as int),
        deposit_spec(accounts, mode, amount_a, amount_b, min_lp_out) is Ok,
    ensures
        ({
            let outcome = deposit_spec(accounts, mode, amount_a, amount_b, min_lp_out)->Ok_0;
            accounts.pool.fees_backed(
                accounts.vault_a_amount + outcome.transfer_a,
                accounts.vault_b_amount + outcome.transfer_b,
            )
        }),
{
}

/// A swap pays out only of the LP reserve on the output side, never out of
/// the protocol's earmarked fees there; and in a well-formed pool whose
/// vaults cover their earmarked fees, the input vault, which receives the
/// whole input, also covers the protocol's new cut.
pub proof fn lemma_swap_leaves_fees_backed(accounts: Swap, direction: SwapDirection, amount_in: u64, min_amount_out: u64)
    requires
        accounts.pool.well_formed(),
        swap_spec(accounts, direction, amount_in, min_amount_out) is Ok,
    ensures
        ({
            let outcome = swap_spec(accounts, direction, amount_in, min_amount_out)->Ok_0;
            let (vault_in, vault_out, fees_in, fees_out) = match direction {
                SwapDirection::AToB => (
                    accounts.vault_a_amount,
                    accounts.vault_b_amount,
                    accounts.pool.protocol_fees_a,
                    accounts.pool.protocol_fees_b,
                ),
                SwapDirection::BToA => (
                    accounts.vault_b_amount,
                    accounts.vault_a_amount,
                    accounts.pool.protocol_fees_b,
                    accounts.pool.protocol_fees_a,
                ),
            };
            &&& outcome.amount_out < lp_reserve(vault_out, fees_out)
            &&& accounts.pool.fees_backed(accounts.vault_a_amount as int, accounts.vault_b_amount as int) ==> {
                &&& fees_in + outcome.protocol_fee_cut <= vault_in + outcome.amount_in
                &&& fees_out <= vault_out - outcome.amount_out
            }
        }),
{
    lemma_protocol_cut_within_fee(accounts, direction, amount_in, min_amount_out);
    let (reserve_a, reserve_b) = accounts.pool.lp_reserves_spec(accounts.vault_a_amount, accounts.vault_b_amount);
    match direction {
        SwapDirection::AToB => {
            lemma_swap_never_decreases_product(amount_in, reserve_a, reserve_b, accounts.pool.fee_bps);
        },
        SwapDirection::BToA => {
            lemma_swap_never_decreases_product(amount_in, reserve_b, reserve_a, accounts.pool.fee_bps);
        },
    }
}

} // verus!
