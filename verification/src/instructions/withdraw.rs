use vstd::prelude::*;
use crate::errors::AmmError;
use crate::math::{get_withdraw_amounts, withdraw_spec};
use crate::state::Pool;

verus! {

/// What a withdraw instruction reads: the pool, the balances of its two
/// vaults and the LP mint's supply.
#[derive(Debug, Clone, Copy)]
pub struct Withdraw {
    pub pool: Pool,
    pub vault_a_amount: u64,
    pub vault_b_amount: u64,
    pub lp_supply: u64,
}

/// What a withdrawal moves: `lp_to_burn` LP tokens burned from the
/// withdrawer, then `amount_a` and `amount_b` from the vaults to the
/// withdrawer (a zero amount is not transferred).
#[derive(Debug, Clone, Copy, PartialEq, Eq, Structural)]
pub struct WithdrawOutcome {
    pub lp_to_burn: u64,
    pub amount_a: u64,
    pub amount_b: u64,
}

/// What the withdraw handler returns: the pro-rata share of the LP
/// reserves (each vault less the protocol fees earmarked on its side,
/// nothing where the fees take it all), refused with a slippage error when
/// either amount is below its minimum. The pool's pause flag plays no part,
/// and a vault short of its earmarked fees never blocks a withdrawal.
pub open spec fn withdraw_handler_spec(accounts: Withdraw, lp_amount: u64, min_amount_a_out: u64, min_amount_b_out: u64) -> Result<WithdrawOutcome, AmmError> {
    let (reserve_a, reserve_b) = accounts.pool.lp_reserves_spec(accounts.vault_a_amount, accounts.vault_b_amount);
    match withdraw_spec(lp_amount, accounts.lp_supply, reserve_a, reserve_b) {
        Err(e) => Err(e),
        Ok((amount_a, amount_b)) => if amount_a < min_amount_a_out || amount_b < min_amount_b_out {
            Err(AmmError::SlippageExceeded)
        } else {
            Ok(WithdrawOutcome { lp_to_burn: lp_amount, amount_a, amount_b })
        },
    }
}

/// Decides a withdrawal of `lp_amount` LP tokens for a pro-rata share of
/// both LP reserves. Withdrawal is deliberately not gated by the pool's pause
/// flag: LPs can always exit.
pub fn handler(accounts: &Withdraw, lp_amount: u64, min_amount_a_out: u64, min_amount_b_out: u64) -> (result: Result<WithdrawOutcome, AmmError>)
    ensures
        result == withdraw_handler_spec(*accounts, lp_amount, min_amount_a_out, min_amount_b_out),
{
    // LPs are paid only out of the LP reserves: the protocol's earmarked
    // fees stay in the vaults for collection.
    let (reserve_a, reserve_b) = accounts.pool.lp_reserves(accounts.vault_a_amount, accounts.vault_b_amount);
    let (amount_a, amount_b) = match get_withdraw_amounts(lp_amount, accounts.lp_supply, reserve_a, reserve_b) {
        Ok(amounts) => amounts,
        Err(e) => return Err(e),
    };
    if amount_a < min_amount_a_out {
        return Err(AmmError::SlippageExceeded);
    }
    if amount_b < min_amount_b_out {
        return Err(AmmError::SlippageExceeded);
    }
    Ok(WithdrawOutcome { lp_to_burn: lp_amount, amount_a, amount_b })
}

/// Pausing a pool never changes what a withdrawal does: the outcome for a
/// paused pool is the outcome for the same pool unpaused.
pub proof fn lemma_withdraw_ignores_pause(accounts: Withdraw, paused: bool, lp_amount: u64, min_amount_a_out: u64, min_amount_b_out: u64)
    ensures
        withdraw_handler_spec(
            Withdraw { pool: Pool { paused, ..accounts.pool }, ..accounts },
            lp_amount,
            min_amount_a_out,
            min_amount_b_out,
        ) == withdraw_handler_spec(accounts, lp_amount, min_amount_a_out, min_amount_b_out),
{
}

} // verus!
