use vstd::prelude::*;
use crate::errors::AmmError;
use crate::state::{keys_equal, Pool, Pubkey};

verus! {

/// What a set-paused instruction reads: the signer and the pool.
#[derive(Debug, Clone, Copy)]
pub struct SetPaused {
    pub admin: Pubkey,
    pub pool: Pool,
}

/// Pauses or unpauses swaps and deposits. Only the pool's admin may do so.
/// Withdrawals are never affected.
pub fn set_paused_handler(accounts: &mut SetPaused, paused: bool) -> (result: Result<(), AmmError>)
    ensures
        old(accounts).admin@ != old(accounts).pool.admin@ ==> {
            &&& result == Err::<(), AmmError>(AmmError::Unauthorized)
            &&& *final(accounts) == *old(accounts)
        },
        old(accounts).admin@ == old(accounts).pool.admin@ ==> {
            &&& result is Ok
            &&& final(accounts).admin == old(accounts).admin
            &&& final(accounts).pool == Pool { paused, ..old(accounts).pool }
        },
        old(accounts).pool.well_formed() ==> final(accounts).pool.well_formed(),
{
    if !keys_equal(&accounts.admin, &accounts.pool.admin) {
        return Err(AmmError::Unauthorized);
    }
    accounts.pool.paused = paused;
    Ok(())
}

/// What a collect-protocol-fees instruction reads: the signer and the pool.
#[derive(Debug, Clone, Copy)]
pub struct CollectProtocolFees {
    pub admin: Pubkey,
    pub pool: Pool,
}

/// Sweeps the accrued protocol fees: returns the amounts of token A and B
/// to transfer from the vaults to the fee destinations and clears the
/// accumulators. Only the pool's admin may do so, and only when something
/// has accrued. It only ever pays out what swaps have earmarked.
pub fn collect_protocol_fees_handler(accounts: &mut CollectProtocolFees) -> (result: Result<(u64, u64), AmmError>)
    ensures
        old(accounts).admin@ != old(accounts).pool.admin@ ==> {
            &&& result == Err::<(u64, u64), AmmError>(AmmError::Unauthorized)
            &&& *final(accounts) == *old(accounts)
        },
        old(accounts).admin@ == old(accounts).pool.admin@ && old(accounts).pool.protocol_fees_a == 0
            && old(accounts).pool.protocol_fees_b == 0 ==> {
            &&& result == Err::<(u64, u64), AmmError>(AmmError::NoFeesToCollect)
            &&& *final(accounts) == *old(accounts)
        },
        old(accounts).admin@ == old(accounts).pool.admin@ && (old(accounts).pool.protocol_fees_a > 0
            || old(accounts).pool.protocol_fees_b > 0) ==> {
            &&& result == Ok::<(u64, u64), AmmError>(
                (old(accounts).pool.protocol_fees_a, old(accounts).pool.protocol_fees_b),
            )
            &&& final(accounts).admin == old(accounts).admin
            &&& final(accounts).pool == old(accounts).pool.with_protocol_fees(0, 0)
        },
        old(accounts).pool.well_formed() ==> final(accounts).pool.well_formed(),
{
    if !keys_equal(&accounts.admin, &accounts.pool.admin) {
        return Err(AmmError::Unauthorized);
    }
    let amount_a = accounts.pool.protocol_fees_a;
    let amount_b = accounts.pool.protocol_fees_b;
    if !(amount_a > 0 || amount_b > 0) {
        return Err(AmmError::NoFeesToCollect);
    }
    accounts.pool.protocol_fees_a = 0;
    accounts.pool.protocol_fees_b = 0;
    Ok((amount_a, amount_b))
}

} // verus!
