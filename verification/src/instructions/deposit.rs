use vstd::prelude::*;
use crate::errors::AmmError;
use crate::math::{
    deposit_lp_spec, get_deposit_lp_amount, get_single_sided_deposit_lp_amount,
    single_sided_lp_spec,
};
use crate::state::Pool;

verus! {

/// Deposit mode: paired, or one side only.
#[derive(Debug, Clone, Copy, PartialEq, Eq, Structural)]
pub enum DepositMode {
    /// Deposit both tokens in the current pool ratio.
    Paired,
    /// Deposit only token A; the missing side is filled by an implicit
    /// internal swap. Only valid if the pool allows single-sided deposits.
    SingleSidedA,
    /// Deposit only token B; mirror of `SingleSidedA`.
    SingleSidedB,
}

/// What a deposit instruction reads: the pool, the balances of its two
/// vaults and the LP mint's supply.
#[derive(Debug, Clone, Copy)]
pub struct Deposit {
    pub pool: Pool,
    pub vault_a_amount: u64,
    pub vault_b_amount: u64,
    pub lp_supply: u64,
}

/// What a deposit moves: `transfer_a` and `transfer_b` from the depositor
/// into the vaults (a zero amount is not transferred) and `lp_to_mint` LP
/// tokens minted to the depositor.
#[derive(Debug, Clone, Copy, PartialEq, Eq, Structural)]
pub struct DepositOutcome {
    pub transfer_a: u64,
    pub transfer_b: u64,
    pub lp_to_mint: u64,
}

/// Transfers and LP amount for a deposit mode against the given LP
/// reserves, before the slippage guard.
pub open spec fn deposit_for_mode(
    pool: Pool,
    reserve_a: u64,
    reserve_b: u64,
    lp_supply: u64,
    mode: DepositMode,
    amount_a: u64,
    amount_b: u64,
) -> Result<DepositOutcome, AmmError> {
    match mode {
        DepositMode::Paired => match deposit_lp_spec(amount_a, amount_b, reserve_a, reserve_b, lp_supply) {
            Err(e) => Err(e),
            Ok(lp) => Ok(DepositOutcome { transfer_a: amount_a, transfer_b: amount_b, lp_to_mint: lp }),
        },
        DepositMode::SingleSidedA => if !pool.single_sided_deposits_enabled {
            Err(AmmError::SingleSidedDepositsDisabled)
        } else {
            match single_sided_lp_spec(amount_a, reserve_a, reserve_b, lp_supply, pool.fee_bps) {
                Err(e) => Err(e),
                Ok(lp) => Ok(DepositOutcome { transfer_a: amount_a, transfer_b: 0, lp_to_mint: lp }),
            }
        },
        DepositMode::SingleSidedB => if !pool.single_sided_deposits_enabled {
            Err(AmmError::SingleSidedDepositsDisabled)
        } else {
            match single_sided_lp_spec(amount_b, reserve_b, reserve_a, lp_supply, pool.fee_bps) {
                Err(e) => Err(e),
                Ok(lp) => Ok(DepositOutcome { transfer_a: 0, transfer_b: amount_b, lp_to_mint: lp }),
            }
        },
    }
}

/// What the deposit handler returns: refused while the pool is paused,
/// then the mode's own refusals against the LP reserves (each vault less
/// the protocol fees earmarked on its side, nothing where the fees take it
/// all), then a slippage refusal when fewer than `min_lp_out` LP tokens
/// would be minted.
pub open spec fn deposit_spec(accounts: Deposit, mode: DepositMode, amount_a: u64, amount_b: u64, min_lp_out: u64) -> Result<DepositOutcome, AmmError> {
    let (reserve_a, reserve_b) = accounts.pool.lp_reserves_spec(accounts.vault_a_amount, accounts.vault_b_amount);
    if accounts.pool.paused {
        Err(AmmError::PoolPaused)
    } else {
        match deposit_for_mode(
            accounts.pool,
            reserve_a,
            reserve_b,
            accounts.lp_supply,
            mode,
            amount_a,
            amount_b,
        ) {
            Err(e) => Err(e),
            Ok(outcome) => if outcome.lp_to_mint < min_lp_out {
                Err(AmmError::SlippageExceeded)
            } else {
                Ok(outcome)
            },
        }
    }
}

/// Decides a deposit. For `Paired`, both amounts are provided and LP is
/// minted for the limiting side; for `SingleSidedA` / `SingleSidedB`, only
/// the corresponding amount is read. `min_lp_out` is the slippage guard.
pub fn handler(accounts: &Deposit, mode: DepositMode, amount_a: u64, amount_b: u64, min_lp_out: u64) -> (result: Result<DepositOutcome, AmmError>)
    ensures
        result == deposit_spec(*accounts, mode, amount_a, amount_b, min_lp_out),
{
    let pool = &accounts.pool;
    if pool.paused {
        return Err(AmmError::PoolPaused);
    }
    // LP reserves: the protocol's earmarked fees are not LP principal.
    let (reserve_a, reserve_b) = pool.lp_reserves(accounts.vault_a_amount, accounts.vault_b_amount);
    let lp_supply = accounts.lp_supply;
    let fee_bps = pool.fee_bps;
    let single_sided_enabled = pool.single_sided_deposits_enabled;

    let outcome = match mode {
        DepositMode::Paired => {
            let lp = match get_deposit_lp_amount(amount_a, amount_b, reserve_a, reserve_b, lp_supply) {
                Ok(lp) => lp,
                Err(e) => return Err(e),
            };
            DepositOutcome { transfer_a: amount_a, transfer_b: amount_b, lp_to_mint: lp }
        },
        DepositMode::SingleSidedA => {
            if !single_sided_enabled {
                return Err(AmmError::SingleSidedDepositsDisabled);
            }
            let lp = match get_single_sided_deposit_lp_amount(amount_a, reserve_a, reserve_b, lp_supply, fee_bps) {
                Ok(lp) => lp,
                Err(e) => return Err(e),
            };
            DepositOutcome { transfer_a: amount_a, transfer_b: 0, lp_to_mint: lp }
        },
        DepositMode::SingleSidedB => {
            if !single_sided_enabled {
                return Err(AmmError::SingleSidedDepositsDisabled);
            }
            let lp = match get_single_sided_deposit_lp_amount(amount_b, reserve_b, reserve_a, lp_supply, fee_bps) {
                Ok(lp) => lp,
                Err(e) => return Err(e),
            };
            DepositOutcome { transfer_a: 0, transfer_b: amount_b, lp_to_mint: lp }
        },
    };

    if outcome.lp_to_mint < min_lp_out {
        return Err(AmmError::SlippageExceeded);
    }
    Ok(outcome)
}

/// A paused pool refuses every deposit.
pub proof fn lemma_paused_pool_refuses_deposits(accounts: Deposit, mode: DepositMode, amount_a: u64, amount_b: u64, min_lp_out: u64)
    requires
        accounts.pool.paused,
    ensures
        deposit_spec(accounts, mode, amount_a, amount_b, min_lp_out) == Err::<DepositOutcome, AmmError>(AmmError::PoolPaused),
{
}

} // verus!
