use vstd::prelude::*;
use crate::errors::AmmError;
use crate::state::{key_less, key_lt, keys_equal, lemma_key_order_is_strict_total, Pool, Pubkey};

verus! {

/// The addresses an initialize-pool instruction is given: the pool's
/// administrator, the two mints, and the pool account, vaults and LP mint
/// created for them.
#[derive(Debug, Clone, Copy)]
pub struct InitializePool {
    pub admin: Pubkey,
    pub mint_a: Pubkey,
    pub mint_b: Pubkey,
    pub pool_bump: u8,
    pub vault_a: Pubkey,
    pub vault_b: Pubkey,
    pub lp_mint: Pubkey,
}

/// Why an initialize-pool instruction with these mints and fees is
/// refused, if it is: identical mints, mints out of canonical order, a fee
/// of 100% or more, or a protocol share above 100%, checked in that order.
pub open spec fn initialize_pool_refusal(mint_a: Seq<u8>, mint_b: Seq<u8>, fee_bps: u16, protocol_fee_share_bps: u16) -> Option<AmmError> {
    if mint_a == mint_b {
        Some(AmmError::IdenticalMints)
    } else if !key_lt(mint_a, mint_b) {
        Some(AmmError::MintsNotCanonicalOrder)
    } else if fee_bps >= 10_000 {
        Some(AmmError::FeeTooHigh)
    } else if protocol_fee_share_bps > 10_000 {
        Some(AmmError::ProtocolFeeShareTooHigh)
    } else {
        None
    }
}

/// Creates the state of a new pool for the (mint_a, mint_b) pair.
///
/// Mints must be given in canonical order (mint_a's address bytes below
/// mint_b's) so that a pair can only ever have one pool address.
pub fn handler(
    accounts: &InitializePool,
    fee_bps: u16,
    protocol_fee_share_bps: u16,
    single_sided_deposits_enabled: bool,
) -> (result: Result<Pool, AmmError>)
    ensures
        match initialize_pool_refusal(accounts.mint_a@, accounts.mint_b@, fee_bps, protocol_fee_share_bps) {
            Some(e) => result == Err::<Pool, AmmError>(e),
            None => result is Ok,
        },
        result matches Ok(pool) ==> {
            &&& pool.well_formed()
            &&& pool.bump == accounts.pool_bump
            &&& pool.mint_a == accounts.mint_a
            &&& pool.mint_b == accounts.mint_b
            &&& pool.vault_a == accounts.vault_a
            &&& pool.vault_b == accounts.vault_b
            &&& pool.lp_mint == accounts.lp_mint
            &&& pool.fee_bps == fee_bps
            &&& pool.protocol_fee_share_bps == protocol_fee_share_bps
            &&& pool.protocol_fees_a == 0
            &&& pool.protocol_fees_b == 0
            &&& pool.admin == accounts.admin
            &&& !pool.paused
            &&& pool.single_sided_deposits_enabled == single_sided_deposits_enabled
            &&& forall|i: int| 0 <= i < 64 ==> pool._reserved[i] == 0
        },
{
    if keys_equal(&accounts.mint_a, &accounts.mint_b) {
        return Err(AmmError::IdenticalMints);
    }
    if !key_less(&accounts.mint_a, &accounts.mint_b) {
        return Err(AmmError::MintsNotCanonicalOrder);
    }
    if fee_bps >= 10_000 {
        return Err(AmmError::FeeTooHigh);
    }
    if protocol_fee_share_bps > 10_000 {
        return Err(AmmError::ProtocolFeeShareTooHigh);
    }
    let pool = Pool {
        bump: accounts.pool_bump,
        mint_a: accounts.mint_a,
        mint_b: accounts.mint_b,
        vault_a: accounts.vault_a,
        vault_b: accounts.vault_b,
        lp_mint: accounts.lp_mint,
        fee_bps,
        protocol_fee_share_bps,
        protocol_fees_a: 0,
        protocol_fees_b: 0,
        admin: accounts.admin,
        paused: false,
        single_sided_deposits_enabled,
        _reserved: [0u8; 64],
    };
    Ok(pool)
}

/// A pair of distinct mints has exactly one pool: with valid fees, exactly
/// one of the two argument orders is accepted.
pub proof fn lemma_one_pool_per_pair(mint_x: Seq<u8>, mint_y: Seq<u8>, fee_bps: u16, protocol_fee_share_bps: u16)
    requires
        mint_x.len() == mint_y.len(),
        mint_x != mint_y,
        fee_bps < 10_000,
        protocol_fee_share_bps <= 10_000,
    ensures
        initialize_pool_refusal(mint_x, mint_y, fee_bps, protocol_fee_share_bps) is None
            <==> initialize_pool_refusal(mint_y, mint_x, fee_bps, protocol_fee_share_bps) is Some,
{
    lemma_key_order_is_strict_total(mint_x, mint_y);
}

} // verus!
