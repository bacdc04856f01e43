use vstd::prelude::*;
use vstd::arithmetic::div_mod::lemma_div_is_ordered;
use vstd::arithmetic::mul::lemma_mul_inequality;
use crate::errors::AmmError;
use crate::math::{
    get_swap_quote, lemma_mul_div_le_left, lemma_u64_product_fits_u128, mul_div,
    swap_quote_spec, BPS_DENOMINATOR,
};
use crate::state::Pool;

verus! {

/// Which direction a swap goes.
#[derive(Debug, Clone, Copy, PartialEq, Eq, Structural)]
pub enum SwapDirection {
    /// Trader sends token A, receives token B.
    AToB,
    /// Trader sends token B, receives token A.
    BToA,
}

/// What a swap instruction reads: the pool and the balances of its two
/// vaults.
#[derive(Debug, Clone, Copy)]
pub struct Swap {
    pub pool: Pool,
    pub vault_a_amount: u64,
    pub vault_b_amount: u64,
}

/// What a swap moves: `amount_in` from the trader into the input vault,
/// `amount_out` from the output vault to the trader, and how much of the
/// fee is earmarked for the protocol.
#[derive(Debug, Clone, Copy, PartialEq, Eq, Structural)]
pub struct SwapOutcome {
    pub amount_in: u64,
    pub amount_out: u64,
    pub fee_amount: u64,
    pub protocol_fee_cut: u64,
}

/// (reserve_in, reserve_out) for a direction.
pub open spec fn swap_reserves(direction: SwapDirection, vault_a_amount: u64, vault_b_amount: u64) -> (u64, u64) {
    match direction {
        SwapDirection::AToB => (vault_a_amount, vault_b_amount),
        SwapDirection::BToA => (vault_b_amount, vault_a_amount),
    }
}

/// The protocol's share of a swap fee: floor(fee * share_bps / 10000).
pub open spec fn protocol_fee_cut(fee_amount: int, protocol_fee_share_bps: int) -> int {
    mul_div(fee_amount, protocol_fee_share_bps, BPS_DENOMINATOR as int)
}

/// What the swap handler returns: refused while the pool is paused, then
/// the quote's own refusals against the LP reserves (each vault less the
/// protocol fees earmarked on its side, nothing where the fees take it all), then a slippage refusal when the output is
/// below `min_amount_out`, then an overflow when the protocol's cut does
/// not fit in a `u64`.
pub open spec fn swap_spec(accounts: Swap, direction: SwapDirection, amount_in: u64, min_amount_out: u64) -> Result<SwapOutcome, AmmError> {
    let (reserve_a, reserve_b) = accounts.pool.lp_reserves_spec(accounts.vault_a_amount, accounts.vault_b_amount);
    let (reserve_in, reserve_out) = swap_reserves(direction, reserve_a, reserve_b);
    if accounts.pool.paused {
        Err(AmmError::PoolPaused)
    } else {
        match swap_quote_spec(amount_in, reserve_in, reserve_out, accounts.pool.fee_bps) {
            Err(e) => Err(e),
            Ok(quote) => if quote.amount_out < min_amount_out {
                Err(AmmError::SlippageExceeded)
            } else if protocol_fee_cut(quote.fee_amount as int, accounts.pool.protocol_fee_share_bps as int) > u64::MAX {
                Err(AmmError::MathOverflow)
            } else {
                Ok(SwapOutcome {
                    amount_in,
                    amount_out: quote.amount_out,
                    fee_amount: quote.fee_amount,
                    protocol_fee_cut: protocol_fee_cut(
                        quote.fee_amount as int,
                        accounts.pool.protocol_fee_share_bps as int,
                    ) as u64,
                })
            },
        }
    }
}

/// Decides a swap of exactly `amount_in` of one token for the other,
/// priced against the LP reserves (each vault less the protocol fees
/// earmarked on its side). `min_amount_out` is the trader's slippage guard.
pub fn handler(accounts: &Swap, direction: SwapDirection, amount_in: u64, min_amount_out: u64) -> (result: Result<SwapOutcome, AmmError>)
    ensures
        result == swap_spec(*accounts, direction, amount_in, min_amount_out),
{
    if accounts.pool.paused {
        return Err(AmmError::PoolPaused);
    }
    let fee_bps = accounts.pool.fee_bps;
    let protocol_fee_share_bps = accounts.pool.protocol_fee_share_bps;

    // The curve prices against the LP reserves only: the protocol's
    // earmarked fees stay in the vaults but are not LP principal.
    let (reserve_a, reserve_b) = accounts.pool.lp_reserves(accounts.vault_a_amount, accounts.vault_b_amount);
    let (reserve_in, reserve_out) = match direction {
        SwapDirection::AToB => (reserve_a, reserve_b),
        SwapDirection::BToA => (reserve_b, reserve_a),
    };

    let quote = match get_swap_quote(amount_in, reserve_in, reserve_out, fee_bps) {
        Ok(q) => q,
        Err(e) => return Err(e),
    };
    if quote.amount_out < min_amount_out {
        return Err(AmmError::SlippageExceeded);
    }

    proof {
        lemma_u64_product_fits_u128(quote.fee_amount, protocol_fee_share_bps as u64);
    }
    let product = match (quote.fee_amount as u128).checked_mul(protocol_fee_share_bps as u128) {
        Some(p) => p,
        None => return Err(AmmError::MathOverflow),
    };
    let cut = match product.checked_div(BPS_DENOMINATOR as u128) {
        Some(c) => c,
        None => return Err(AmmError::MathOverflow),
    };
    if cut > u64::MAX as u128 {
        return Err(AmmError::MathOverflow);
    }
    Ok(SwapOutcome {
        amount_in,
        amount_out: quote.amount_out,
        fee_amount: quote.fee_amount,
        protocol_fee_cut: cut as u64,
    })
}

/// Records the protocol's earmarked share of a swap fee, in the input
/// token's accumulator. No tokens move: the share already sits in the
/// vault as part of the swap's input.
pub fn record_protocol_fee(pool: &mut Pool, direction: SwapDirection, protocol_fee_cut: u64) -> (result: Result<(), AmmError>)
    ensures
        match direction {
            SwapDirection::AToB => if old(pool).protocol_fees_a + protocol_fee_cut > u64::MAX {
                result == Err::<(), AmmError>(AmmError::MathOverflow) && *final(pool) == *old(pool)
            } else {
                result is Ok && *final(pool) == old(pool).with_protocol_fees(
                    (old(pool).protocol_fees_a + protocol_fee_cut) as u64,
                    old(pool).protocol_fees_b,
                )
            },
            SwapDirection::BToA => if old(pool).protocol_fees_b + protocol_fee_cut > u64::MAX {
                result == Err::<(), AmmError>(AmmError::MathOverflow) && *final(pool) == *old(pool)
            } else {
                result is Ok && *final(pool) == old(pool).with_protocol_fees(
                    old(pool).protocol_fees_a,
                    (old(pool).protocol_fees_b + protocol_fee_cut) as u64,
                )
            },
        },
        old(pool).well_formed() ==> final(pool).well_formed(),
{
    match direction {
        SwapDirection::AToB => {
            match pool.protocol_fees_a.checked_add(protocol_fee_cut) {
                Some(v) => {
                    pool.protocol_fees_a = v;
                    Ok(())
                },
                None => Err(AmmError::MathOverflow),
            }
        },
        SwapDirection::BToA => {
            match pool.protocol_fees_b.checked_add(protocol_fee_cut) {
                Some(v) => {
                    pool.protocol_fees_b = v;
                    Ok(())
                },
                None => Err(AmmError::MathOverflow),
            }
        },
    }
}

/// In a well-formed pool the protocol's earmark never exceeds the fee the
/// swap actually charged, so protocol revenue can never reach into the
/// LPs' principal.
pub proof fn lemma_protocol_cut_within_fee(accounts: Swap, direction: SwapDirection, amount_in: u64, min_amount_out: u64)
    requires
        accounts.pool.well_formed(),
        swap_spec(accounts, direction, amount_in, min_amount_out) is Ok,
    ensures
        ({
            let outcome = swap_spec(accounts, direction, amount_in, min_amount_out)->Ok_0;
            &&& outcome.protocol_fee_cut <= outcome.fee_amount
            &&& outcome.fee_amount <= outcome.amount_in
        }),
{
    let (reserve_a, reserve_b) = accounts.pool.lp_reserves_spec(accounts.vault_a_amount, accounts.vault_b_amount);
    let (reserve_in, reserve_out) = swap_reserves(direction, reserve_a, reserve_b);
    let quote = swap_quote_spec(amount_in, reserve_in, reserve_out, accounts.pool.fee_bps)->Ok_0;
    lemma_mul_div_le_left(quote.fee_amount as int, accounts.pool.protocol_fee_share_bps as int, BPS_DENOMINATOR as int);
    crate::laws::lemma_swap_never_decreases_product(amount_in, reserve_in, reserve_out, accounts.pool.fee_bps);
}

/// A paused pool refuses every swap.
pub proof fn lemma_paused_pool_refuses_swaps(accounts: Swap, direction: SwapDirection, amount_in: u64, min_amount_out: u64)
    requires
        accounts.pool.paused,
    ensures
        swap_spec(accounts, direction, amount_in, min_amount_out) == Err::<SwapOutcome, AmmError>(AmmError::PoolPaused),
{
}

} // verus!
