//! Laws of the instructions: what a successful swap, deposit or withdrawal
//! pays, mints and earmarks, stated directly over its inputs and results,
//! and how the caller's slippage bounds decide between success and refusal.

use vstd::prelude::*;
use vstd::arithmetic::div_mod::*;
use vstd::arithmetic::mul::*;
use crate::errors::AmmError;
use crate::instructions::deposit::{deposit_spec, Deposit, DepositMode, DepositOutcome};
use crate::instructions::swap::{swap_spec, Swap, SwapDirection, SwapOutcome};
use crate::instructions::withdraw::{withdraw_handler_spec, Withdraw, WithdrawOutcome};
use crate::math::{
    is_floor_sqrt, lemma_floor_sqrt, lemma_swap_bounds, single_sided_lp_spec,
};
use crate::state::lp_reserve;

verus! {

/// `q` is floor(n / d): `q * d <= n < (q + 1) * d`.
pub open spec fn is_floor_div(q: int, n: int, d: int) -> bool {
    q * d <= n && n < (q + 1) * d
}

/// The quotient of a division satisfies `is_floor_div`.
proof fn lemma_floor_div(n: int, d: int)
    requires
        d > 0,
    ensures
        is_floor_div(n / d, n, d),
{
    lemma_fundamental_div_mod(n, d);
    lemma_mod_bound(n, d);
    lemma_mul_is_commutative(n / d, d);
    assert((n / d + 1) * d == (n / d) * d + d) by (nonlinear_arith);
}

// ---------------------------------------------------------------------
// Swaps
// ---------------------------------------------------------------------

/// Every successful swap, in either direction, on an unpaused pool:
/// takes exactly `amount_in`; charges the fee floor(amount_in * fee_bps / 10000);
/// pays the constant-product output on the priced input
/// `in' = amount_in - fee` against the LP reserves `r_in`, `r_out` (each
/// vault less the protocol fees earmarked on its side):
/// floor(r_out * in' / (r_in + in')); pays at least `min_amount_out`;
/// and earmarks for the protocol exactly its configured share of the fee,
/// floor(fee * protocol_fee_share_bps / 10000), so 0 for a share of 0 and
/// the whole fee for a share of 10000.
pub proof fn lemma_swap_outcome(accounts: Swap, direction: SwapDirection, amount_in: u64, min_amount_out: u64)
    requires
        swap_spec(accounts, direction, amount_in, min_amount_out) is Ok,
    ensures
        ({
            let outcome = swap_spec(accounts, direction, amount_in, min_amount_out)->Ok_0;
            let pool = accounts.pool;
            let (vault_in, vault_out, fees_in, fees_out) = match direction {
                SwapDirection::AToB => (
                    accounts.vault_a_amount,
                    accounts.vault_b_amount,
                    pool.protocol_fees_a,
                    pool.protocol_fees_b,
                ),
                SwapDirection::BToA => (
                    accounts.vault_b_amount,
                    accounts.vault_a_amount,
                    pool.protocol_fees_b,
                    pool.protocol_fees_a,
                ),
            };
            let r_in = lp_reserve(vault_in, fees_in) as int;
            let r_out = lp_reserve(vault_out, fees_out) as int;
            let priced = amount_in - outcome.fee_amount;
            &&& !pool.paused
            &&& outcome.amount_in == amount_in
            &&& outcome.amount_out >= min_amount_out
            &&& is_floor_div(outcome.fee_amount as int, amount_in * pool.fee_bps, 10_000)
            &&& 0 <= priced
            &&& is_floor_div(outcome.amount_out as int, r_out * priced, r_in + priced)
            &&& is_floor_div(
                outcome.protocol_fee_cut as int,
                outcome.fee_amount * pool.protocol_fee_share_bps,
                10_000,
            )
        }),
{
    let pool = accounts.pool;
    let (reserve_a, reserve_b) = pool.lp_reserves_spec(accounts.vault_a_amount, accounts.vault_b_amount);
    let (r_in, r_out) = match direction {
        SwapDirection::AToB => (reserve_a, reserve_b),
        SwapDirection::BToA => (reserve_b, reserve_a),
    };
    let outcome = swap_spec(accounts, direction, amount_in, min_amount_out)->Ok_0;
    lemma_swap_bounds(amount_in as int, r_in as int, r_out as int, pool.fee_bps as int);
    lemma_floor_div(amount_in * pool.fee_bps, 10_000);
    let priced = amount_in - outcome.fee_amount;
    lemma_floor_div(r_out * priced, r_in + priced);
    lemma_floor_div(outcome.fee_amount * pool.protocol_fee_share_bps, 10_000);
}

/// The trader's `min_amount_out` only guards a swap, in either direction:
/// when the swap succeeds without a bound, it succeeds with the same
/// outcome under `min_amount_out` if that outcome pays at least
/// `min_amount_out`, and is refused with `SlippageExceeded` if it pays
/// less; and a swap that succeeds under a bound succeeds the same way
/// without one.
pub proof fn lemma_swap_min_amount_out_guards(accounts: Swap, direction: SwapDirection, amount_in: u64, min_amount_out: u64)
    ensures
        swap_spec(accounts, direction, amount_in, 0) matches Ok(outcome) ==> swap_spec(
            accounts,
            direction,
            amount_in,
            min_amount_out,
        ) == if outcome.amount_out >= min_amount_out {
            Ok::<SwapOutcome, AmmError>(outcome)
        } else {
            Err(AmmError::SlippageExceeded)
        },
        swap_spec(accounts, direction, amount_in, min_amount_out) is Ok ==> swap_spec(
            accounts,
            direction,
            amount_in,
            0,
        ) == swap_spec(accounts, direction, amount_in, min_amount_out),
{
}

// ---------------------------------------------------------------------
// Deposits
// ---------------------------------------------------------------------

/// The caller's `min_lp_out` only guards a deposit, in every mode: when the
/// deposit succeeds without a bound, it succeeds with the same outcome
/// under `min_lp_out` if it mints at least `min_lp_out`, and is refused
/// with `SlippageExceeded` if it mints less; and a deposit that succeeds
/// under a bound succeeds the same way without one.
pub proof fn lemma_deposit_min_lp_out_guards(
    accounts: Deposit,
    mode: DepositMode,
    amount_a: u64,
    amount_b: u64,
    min_lp_out: u64,
)
    ensures
        deposit_spec(accounts, mode, amount_a, amount_b, 0) matches Ok(outcome) ==> deposit_spec(
            accounts,
            mode,
            amount_a,
            amount_b,
            min_lp_out,
        ) == if outcome.lp_to_mint >= min_lp_out {
            Ok::<DepositOutcome, AmmError>(outcome)
        } else {
            Err(AmmError::SlippageExceeded)
        },
        deposit_spec(accounts, mode, amount_a, amount_b, min_lp_out) is Ok ==> deposit_spec(
            accounts,
            mode,
            amount_a,
            amount_b,
            0,
        ) == deposit_spec(accounts, mode, amount_a, amount_b, min_lp_out),
{
}

/// Every successful deposit, on an unpaused pool, mints at least
/// `min_lp_out` and moves exactly the amounts its mode reads:
/// - paired: both amounts; into an empty pool (no LP supply) it mints
///   floor(sqrt(amount_a * amount_b)); otherwise the smaller of the two
///   pro-rata shares floor(S * amount / r) of the LP supply `S` against the
///   LP reserves `r` (each vault less the protocol fees earmarked on its
///   side);
/// - single-sided: only the deposited token, on a pool that allows it,
///   minting what the single-sided pricing gives against the LP reserves.
pub proof fn lemma_deposit_outcome(
    accounts: Deposit,
    mode: DepositMode,
    amount_a: u64,
    amount_b: u64,
    min_lp_out: u64,
)
    requires
        deposit_spec(accounts, mode, amount_a, amount_b, min_lp_out) is Ok,
    ensures
        ({
            let outcome = deposit_spec(accounts, mode, amount_a, amount_b, min_lp_out)->Ok_0;
            let pool = accounts.pool;
            let s = accounts.lp_supply as int;
            let lp = outcome.lp_to_mint as int;
            let r_a = lp_reserve(accounts.vault_a_amount, pool.protocol_fees_a);
            let r_b = lp_reserve(accounts.vault_b_amount, pool.protocol_fees_b);
            &&& !pool.paused
            &&& outcome.lp_to_mint >= min_lp_out
            &&& outcome.lp_to_mint >= 1
            &&& match mode {
                DepositMode::Paired => {
                    &&& outcome.transfer_a == amount_a
                    &&& outcome.transfer_b == amount_b
                    &&& s == 0 ==> is_floor_sqrt(amount_a * amount_b, lp)
                    &&& s > 0 ==> {
                        &&& lp * r_a <= s * amount_a
                        &&& lp * r_b <= s * amount_b
                        &&& ((lp + 1) * r_a > s * amount_a || (lp + 1) * r_b > s * amount_b)
                    }
                },
                DepositMode::SingleSidedA => {
                    &&& pool.single_sided_deposits_enabled
                    &&& outcome.transfer_a == amount_a
                    &&& outcome.transfer_b == 0
                    &&& single_sided_lp_spec(amount_a, r_a, r_b, accounts.lp_supply, pool.fee_bps)
                        == Ok::<u64, AmmError>(outcome.lp_to_mint)
                },
                DepositMode::SingleSidedB => {
                    &&& pool.single_sided_deposits_enabled
                    &&& outcome.transfer_a == 0
                    &&& outcome.transfer_b == amount_b
                    &&& single_sided_lp_spec(amount_b, r_b, r_a, accounts.lp_supply, pool.fee_bps)
                        == Ok::<u64, AmmError>(outcome.lp_to_mint)
                },
            }
        }),
{
    let outcome = deposit_spec(accounts, mode, amount_a, amount_b, min_lp_out)->Ok_0;
    let pool = accounts.pool;
    let s = accounts.lp_supply as int;
    let r_a = lp_reserve(accounts.vault_a_amount, pool.protocol_fees_a);
    let r_b = lp_reserve(accounts.vault_b_amount, pool.protocol_fees_b);
    if mode == DepositMode::Paired {
        if s == 0 {
            lemma_floor_sqrt(amount_a * amount_b, 0);
            crate::math::lemma_sqrt_of_u64_product(amount_a, amount_b);
        } else {
            let from_a = s * amount_a / (r_a as int);
            let from_b = s * amount_b / (r_b as int);
            let lp = outcome.lp_to_mint as int;
            lemma_floor_div(s * amount_a, r_a as int);
            lemma_floor_div(s * amount_b, r_b as int);
            lemma_mul_inequality(lp, from_a, r_a as int);
            lemma_mul_inequality(lp, from_b, r_b as int);
            if lp == from_a {
                assert((lp + 1) * r_a > s * amount_a);
            } else {
                assert((lp + 1) * r_b > s * amount_b);
            }
        }
    } else {
        // a single-sided deposit prices a paired deposit, which mints at least one
        let (r_in, r_out, amount) = if mode == DepositMode::SingleSidedA {
            (r_a, r_b, amount_a)
        } else {
            (r_b, r_a, amount_b)
        };
        let half = amount / 2;
        let quote = crate::math::swap_quote_spec(half, r_in, r_out, pool.fee_bps)->Ok_0;
        if s == 0 {
            crate::math::lemma_sqrt_of_u64_product((amount - half) as u64, quote.amount_out);
        }
    }
}

/// An unpaused paired deposit of two nonzero amounts into a pool with no LP
/// supply always succeeds, whatever the vaults hold, and mints
/// floor(sqrt(amount_a * amount_b)), at least one, moving both amounts.
pub proof fn lemma_paired_first_deposit_succeeds(accounts: Deposit, amount_a: u64, amount_b: u64)
    requires
        !accounts.pool.paused,
        accounts.lp_supply == 0,
        amount_a > 0,
        amount_b > 0,
    ensures
        deposit_spec(accounts, DepositMode::Paired, amount_a, amount_b, 0) is Ok,
        ({
            let outcome = deposit_spec(accounts, DepositMode::Paired, amount_a, amount_b, 0)->Ok_0;
            &&& outcome.transfer_a == amount_a
            &&& outcome.transfer_b == amount_b
            &&& outcome.lp_to_mint >= 1
            &&& is_floor_sqrt(amount_a * amount_b, outcome.lp_to_mint as int)
        }),
{
    lemma_floor_sqrt(amount_a * amount_b, 0);
    crate::math::lemma_sqrt_of_u64_product(amount_a, amount_b);
}

// ---------------------------------------------------------------------
// Withdrawals
// ---------------------------------------------------------------------

/// The caller's minimums only guard a withdrawal, whatever LP amount is
/// burned, the whole supply included: when the withdrawal succeeds without
/// minimums, it succeeds with the same outcome under `min_amount_a_out` and
/// `min_amount_b_out` if it pays at least both, and is refused with
/// `SlippageExceeded` otherwise; and a withdrawal that succeeds under
/// minimums succeeds the same way without them.
pub proof fn lemma_withdraw_minimums_guard(
    accounts: Withdraw,
    lp_amount: u64,
    min_amount_a_out: u64,
    min_amount_b_out: u64,
)
    ensures
        withdraw_handler_spec(accounts, lp_amount, 0, 0) matches Ok(outcome) ==> withdraw_handler_spec(
            accounts,
            lp_amount,
            min_amount_a_out,
            min_amount_b_out,
        ) == if outcome.amount_a >= min_amount_a_out && outcome.amount_b >= min_amount_b_out {
            Ok::<WithdrawOutcome, AmmError>(outcome)
        } else {
            Err(AmmError::SlippageExceeded)
        },
        withdraw_handler_spec(accounts, lp_amount, min_amount_a_out, min_amount_b_out) is Ok
            ==> withdraw_handler_spec(accounts, lp_amount, 0, 0) == withdraw_handler_spec(
            accounts,
            lp_amount,
            min_amount_a_out,
            min_amount_b_out,
        ),
{
}

/// Every successful withdrawal burns exactly `lp_amount` of the LP supply
/// `S`, pays at least both minimums, and pays of each token its pro-rata
/// share floor(r * lp_amount / S) of the LP reserve `r` (the vault less the
/// protocol fees earmarked on that side), whether or not the pool is
/// paused.
pub proof fn lemma_withdraw_outcome(accounts: Withdraw, lp_amount: u64, min_amount_a_out: u64, min_amount_b_out: u64)
    requires
        withdraw_handler_spec(accounts, lp_amount, min_amount_a_out, min_amount_b_out) is Ok,
    ensures
        ({
            let outcome = withdraw_handler_spec(accounts, lp_amount, min_amount_a_out, min_amount_b_out)->Ok_0;
            let pool = accounts.pool;
            let s = accounts.lp_supply as int;
            let r_a = lp_reserve(accounts.vault_a_amount, pool.protocol_fees_a) as int;
            let r_b = lp_reserve(accounts.vault_b_amount, pool.protocol_fees_b) as int;
            &&& 0 < lp_amount <= s
            &&& outcome.lp_to_burn == lp_amount
            &&& outcome.amount_a >= min_amount_a_out
            &&& outcome.amount_b >= min_amount_b_out
            &&& is_floor_div(outcome.amount_a as int, r_a * lp_amount, s)
            &&& is_floor_div(outcome.amount_b as int, r_b * lp_amount, s)
        }),
{
    let pool = accounts.pool;
    let s = accounts.lp_supply as int;
    let r_a = lp_reserve(accounts.vault_a_amount, pool.protocol_fees_a) as int;
    let r_b = lp_reserve(accounts.vault_b_amount, pool.protocol_fees_b) as int;
    lemma_floor_div(r_a * lp_amount, s);
    lemma_floor_div(r_b * lp_amount, s);
    crate::math::lemma_mul_div_le_left(r_a, lp_amount as int, s);
    crate::math::lemma_mul_div_le_left(r_b, lp_amount as int, s);
}

} // verus!
