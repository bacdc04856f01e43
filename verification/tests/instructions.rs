use eutxo_amm::errors::AmmError;
use eutxo_amm::instructions::admin::{
    collect_protocol_fees_handler, set_paused_handler, CollectProtocolFees, SetPaused,
};
use eutxo_amm::instructions::deposit::{self, Deposit, DepositMode, DepositOutcome};
use eutxo_amm::instructions::initialize_pool::{self, InitializePool};
use eutxo_amm::instructions::swap::{self, record_protocol_fee, Swap, SwapDirection, SwapOutcome};
use eutxo_amm::instructions::withdraw::{self, Withdraw, WithdrawOutcome};
use eutxo_amm::state::{key_less, keys_equal, Pool, Pubkey};

fn key(first: u8, last: u8) -> Pubkey {
    let mut k = [7u8; 32];
    k[0] = first;
    k[31] = last;
    k
}

fn accounts_for(mint_a: Pubkey, mint_b: Pubkey) -> InitializePool {
    InitializePool {
        admin: key(9, 9),
        mint_a,
        mint_b,
        pool_bump: 254,
        vault_a: key(3, 1),
        vault_b: key(3, 2),
        lp_mint: key(3, 3),
    }
}

fn pool() -> Pool {
    initialize_pool::handler(&accounts_for(key(1, 0), key(2, 0)), 30, 5_000, true).unwrap()
}

#[test]
fn key_order_is_bytewise() {
    assert!(key_less(&key(1, 200), &key(2, 0)));
    assert!(!key_less(&key(2, 0), &key(1, 200)));
    assert!(key_less(&key(1, 0), &key(1, 1)));
    assert!(!key_less(&key(1, 1), &key(1, 1)));
    assert!(keys_equal(&key(4, 4), &key(4, 4)));
    assert!(!keys_equal(&key(4, 4), &key(4, 5)));
}

#[test]
fn pool_account_size() {
    assert_eq!(Pool::LEN, 287);
    assert_eq!(&Pool::POOL_SEED[..], b"pool");
    assert_eq!(&Pool::VAULT_A_SEED[..], b"vault_a");
    assert_eq!(&Pool::VAULT_B_SEED[..], b"vault_b");
    assert_eq!(&Pool::LP_MINT_SEED[..], b"lp_mint");
}

#[test]
fn initialize_pool_sets_every_field() {
    let accounts = accounts_for(key(1, 0), key(2, 0));
    let p = initialize_pool::handler(&accounts, 30, 1_000, false).unwrap();
    assert_eq!(p.bump, 254);
    assert_eq!(p.mint_a, key(1, 0));
    assert_eq!(p.mint_b, key(2, 0));
    assert_eq!(p.vault_a, key(3, 1));
    assert_eq!(p.vault_b, key(3, 2));
    assert_eq!(p.lp_mint, key(3, 3));
    assert_eq!(p.fee_bps, 30);
    assert_eq!(p.protocol_fee_share_bps, 1_000);
    assert_eq!(p.protocol_fees_a, 0);
    assert_eq!(p.protocol_fees_b, 0);
    assert_eq!(p.admin, key(9, 9));
    assert!(!p.paused);
    assert!(!p.single_sided_deposits_enabled);
    assert_eq!(p._reserved, [0u8; 64]);
}

#[test]
fn initialize_pool_refusal_variants() {
    let same = accounts_for(key(1, 0), key(1, 0));
    assert_eq!(initialize_pool::handler(&same, 30, 0, true).unwrap_err(), AmmError::IdenticalMints);
    let reversed = accounts_for(key(2, 0), key(1, 0));
    assert_eq!(
        initialize_pool::handler(&reversed, 30, 0, true).unwrap_err(),
        AmmError::MintsNotCanonicalOrder
    );
    let ordered = accounts_for(key(1, 0), key(2, 0));
    assert_eq!(initialize_pool::handler(&ordered, 10_000, 0, true).unwrap_err(), AmmError::FeeTooHigh);
    assert_eq!(
        initialize_pool::handler(&ordered, 30, 10_001, true).unwrap_err(),
        AmmError::ProtocolFeeShareTooHigh
    );
    assert!(initialize_pool::handler(&ordered, 9_999, 10_000, true).is_ok());
}

#[test]
fn one_pool_per_pair_example() {
    let x = key(5, 1);
    let y = key(5, 2);
    let forward = initialize_pool::handler(&accounts_for(x, y), 30, 0, true).is_ok();
    let backward = initialize_pool::handler(&accounts_for(y, x), 30, 0, true).is_ok();
    assert!(forward != backward);
}

#[test]
fn swap_decides_amounts_and_protocol_cut() {
    let accounts = Swap { pool: pool(), vault_a_amount: 10_000, vault_b_amount: 10_000 };
    let outcome = swap::handler(&accounts, SwapDirection::AToB, 1_000, 900).unwrap();
    // fee 3, protocol share 50% -> cut 1
    assert_eq!(
        outcome,
        SwapOutcome { amount_in: 1_000, amount_out: 906, fee_amount: 3, protocol_fee_cut: 1 }
    );
    // direction picks the reserves
    let accounts = Swap { pool: pool(), vault_a_amount: 10_000, vault_b_amount: 40_000 };
    let a_to_b = swap::handler(&accounts, SwapDirection::AToB, 1_000, 0).unwrap();
    let b_to_a = swap::handler(&accounts, SwapDirection::BToA, 1_000, 0).unwrap();
    assert_eq!(a_to_b.amount_out, 40_000 * 997 / 10_997);
    assert_eq!(b_to_a.amount_out, 10_000 * 997 / 40_997);
}

#[test]
fn swap_refusal_variants() {
    let mut paused = pool();
    paused.paused = true;
    let accounts = Swap { pool: paused, vault_a_amount: 10_000, vault_b_amount: 10_000 };
    assert_eq!(swap::handler(&accounts, SwapDirection::AToB, 1_000, 0), Err(AmmError::PoolPaused));

    let accounts = Swap { pool: pool(), vault_a_amount: 10_000, vault_b_amount: 10_000 };
    assert_eq!(swap::handler(&accounts, SwapDirection::AToB, 1_000, 907), Err(AmmError::SlippageExceeded));
    assert_eq!(swap::handler(&accounts, SwapDirection::AToB, 0, 0), Err(AmmError::ZeroSwapAmount));

    // a protocol share beyond 100% can push the cut past u64::MAX
    let mut odd = pool();
    odd.fee_bps = 9_999;
    odd.protocol_fee_share_bps = u16::MAX;
    let accounts = Swap { pool: odd, vault_a_amount: 1, vault_b_amount: 1 };
    assert_eq!(swap::handler(&accounts, SwapDirection::AToB, u64::MAX, 0), Err(AmmError::MathOverflow));
}

#[test]
fn protocol_cut_never_exceeds_fee_example() {
    let mut p = pool();
    p.protocol_fee_share_bps = 10_000;
    let accounts = Swap { pool: p, vault_a_amount: 500_000, vault_b_amount: 700_000 };
    let outcome = swap::handler(&accounts, SwapDirection::BToA, 123_457, 0).unwrap();
    assert!(outcome.protocol_fee_cut <= outcome.fee_amount);
    assert!(outcome.fee_amount <= outcome.amount_in);
}

#[test]
fn record_protocol_fee_accumulates_per_side() {
    let mut p = pool();
    record_protocol_fee(&mut p, SwapDirection::AToB, 5).unwrap();
    record_protocol_fee(&mut p, SwapDirection::BToA, 7).unwrap();
    record_protocol_fee(&mut p, SwapDirection::AToB, 1).unwrap();
    assert_eq!(p.protocol_fees_a, 6);
    assert_eq!(p.protocol_fees_b, 7);

    p.protocol_fees_b = u64::MAX;
    assert_eq!(record_protocol_fee(&mut p, SwapDirection::BToA, 1), Err(AmmError::MathOverflow));
    assert_eq!(p.protocol_fees_b, u64::MAX);
    assert_eq!(p.protocol_fees_a, 6);
}

#[test]
fn deposit_modes() {
    let accounts = Deposit { pool: pool(), vault_a_amount: 10_000, vault_b_amount: 40_000, lp_supply: 20_000 };
    assert_eq!(
        deposit::handler(&accounts, DepositMode::Paired, 5_000, 10_000, 0),
        Ok(DepositOutcome { transfer_a: 5_000, transfer_b: 10_000, lp_to_mint: 5_000 })
    );
    assert_eq!(
        deposit::handler(&accounts, DepositMode::SingleSidedA, 2_000, 99, 0),
        Ok(DepositOutcome { transfer_a: 2_000, transfer_b: 0, lp_to_mint: 1_818 })
    );
    let single_b = deposit::handler(&accounts, DepositMode::SingleSidedB, 99, 8_000, 0).unwrap();
    assert_eq!(single_b.transfer_a, 0);
    assert_eq!(single_b.transfer_b, 8_000);
    assert_eq!(
        Ok(single_b.lp_to_mint),
        eutxo_amm::math::get_single_sided_deposit_lp_amount(8_000, 40_000, 10_000, 20_000, 30)
    );
}

#[test]
fn deposit_refusal_variants_by_instruction() {
    let mut paused = pool();
    paused.paused = true;
    let accounts = Deposit { pool: paused, vault_a_amount: 10_000, vault_b_amount: 40_000, lp_supply: 20_000 };
    assert_eq!(deposit::handler(&accounts, DepositMode::Paired, 5_000, 10_000, 0), Err(AmmError::PoolPaused));

    let mut closed = pool();
    closed.single_sided_deposits_enabled = false;
    let accounts = Deposit { pool: closed, vault_a_amount: 10_000, vault_b_amount: 40_000, lp_supply: 20_000 };
    assert_eq!(
        deposit::handler(&accounts, DepositMode::SingleSidedA, 2_000, 0, 0),
        Err(AmmError::SingleSidedDepositsDisabled)
    );
    assert_eq!(
        deposit::handler(&accounts, DepositMode::SingleSidedB, 0, 2_000, 0),
        Err(AmmError::SingleSidedDepositsDisabled)
    );
    // paired deposits do not depend on the single-sided switch
    assert!(deposit::handler(&accounts, DepositMode::Paired, 5_000, 10_000, 0).is_ok());
    assert_eq!(
        deposit::handler(&accounts, DepositMode::Paired, 5_000, 10_000, 5_001),
        Err(AmmError::SlippageExceeded)
    );
    assert_eq!(
        deposit::handler(&accounts, DepositMode::Paired, 0, 10_000, 0),
        Err(AmmError::ZeroDepositAmount)
    );
}

#[test]
fn withdraw_by_instruction() {
    let accounts = Withdraw { pool: pool(), vault_a_amount: 10_000, vault_b_amount: 40_000, lp_supply: 20_000 };
    assert_eq!(
        withdraw::handler(&accounts, 10_000, 5_000, 20_000),
        Ok(WithdrawOutcome { lp_to_burn: 10_000, amount_a: 5_000, amount_b: 20_000 })
    );
    assert_eq!(withdraw::handler(&accounts, 10_000, 5_001, 0), Err(AmmError::SlippageExceeded));
    assert_eq!(withdraw::handler(&accounts, 10_000, 0, 20_001), Err(AmmError::SlippageExceeded));
    assert_eq!(withdraw::handler(&accounts, 30_000, 0, 0), Err(AmmError::InsufficientLpBalance));
}

#[test]
fn withdraw_works_while_paused() {
    let mut paused = pool();
    paused.paused = true;
    let accounts = Withdraw { pool: paused, vault_a_amount: 10_000, vault_b_amount: 40_000, lp_supply: 20_000 };
    assert_eq!(
        withdraw::handler(&accounts, 20_000, 0, 0),
        Ok(WithdrawOutcome { lp_to_burn: 20_000, amount_a: 10_000, amount_b: 40_000 })
    );
}

#[test]
fn set_paused_by_admin_only() {
    let mut accounts = SetPaused { admin: key(9, 9), pool: pool() };
    assert_eq!(set_paused_handler(&mut accounts, true), Ok(()));
    assert!(accounts.pool.paused);
    assert_eq!(set_paused_handler(&mut accounts, false), Ok(()));
    assert!(!accounts.pool.paused);

    let mut intruder = SetPaused { admin: key(9, 8), pool: pool() };
    assert_eq!(set_paused_handler(&mut intruder, true), Err(AmmError::Unauthorized));
    assert!(!intruder.pool.paused);
}

#[test]
fn collect_protocol_fees_sweeps_exactly_what_accrued() {
    let mut p = pool();
    p.protocol_fees_a = 11;
    p.protocol_fees_b = 0;
    let mut accounts = CollectProtocolFees { admin: key(9, 9), pool: p };
    assert_eq!(collect_protocol_fees_handler(&mut accounts), Ok((11, 0)));
    assert_eq!(accounts.pool.protocol_fees_a, 0);
    assert_eq!(accounts.pool.protocol_fees_b, 0);
    assert_eq!(collect_protocol_fees_handler(&mut accounts), Err(AmmError::NoFeesToCollect));

    let mut p = pool();
    p.protocol_fees_b = 4;
    let mut intruder = CollectProtocolFees { admin: key(0, 0), pool: p };
    assert_eq!(collect_protocol_fees_handler(&mut intruder), Err(AmmError::Unauthorized));
    assert_eq!(intruder.pool.protocol_fees_b, 4);
}

#[test]
fn withdraw_never_pays_out_earmarked_fees() {
    let mut p = pool();
    p.protocol_fees_a = 10;
    let accounts = Withdraw { pool: p, vault_a_amount: 100, vault_b_amount: 200, lp_supply: 100 };
    // burning the whole supply pays the LP reserves: 100 - 10 of A, all 200 of B
    assert_eq!(
        withdraw::handler(&accounts, 100, 0, 0),
        Ok(WithdrawOutcome { lp_to_burn: 100, amount_a: 90, amount_b: 200 })
    );
    assert_eq!(
        withdraw::handler(&accounts, 50, 0, 0),
        Ok(WithdrawOutcome { lp_to_burn: 50, amount_a: 45, amount_b: 100 })
    );
}

#[test]
fn swap_and_deposit_price_against_lp_reserves() {
    let mut p = pool();
    p.protocol_fees_b = 5_000;
    let accounts = Swap { pool: p, vault_a_amount: 10_000, vault_b_amount: 15_000 };
    let outcome = swap::handler(&accounts, SwapDirection::AToB, 1_000, 0).unwrap();
    assert_eq!(outcome.amount_out, 906);

    let mut p = pool();
    p.protocol_fees_a = 2_000;
    let accounts = Deposit { pool: p, vault_a_amount: 12_000, vault_b_amount: 40_000, lp_supply: 20_000 };
    assert_eq!(
        deposit::handler(&accounts, DepositMode::Paired, 5_000, 10_000, 0),
        Ok(DepositOutcome { transfer_a: 5_000, transfer_b: 10_000, lp_to_mint: 5_000 })
    );
}

#[test]
fn vaults_short_of_earmarked_fees() {
    let mut p = pool();
    p.protocol_fees_a = 101;
    // withdrawals still go through: the A side has no LP reserve left
    let w = Withdraw { pool: p, vault_a_amount: 100, vault_b_amount: 200, lp_supply: 100 };
    assert_eq!(
        withdraw::handler(&w, 100, 0, 0),
        Ok(WithdrawOutcome { lp_to_burn: 100, amount_a: 0, amount_b: 200 })
    );
    assert_eq!(
        withdraw::handler(&w, 1, 0, 0),
        Ok(WithdrawOutcome { lp_to_burn: 1, amount_a: 0, amount_b: 2 })
    );
    // an empty LP reserve is reported as missing liquidity
    let s = Swap { pool: p, vault_a_amount: 100, vault_b_amount: 200 };
    assert_eq!(swap::handler(&s, SwapDirection::BToA, 10, 0), Err(AmmError::InsufficientLiquidity));
    let d = Deposit { pool: p, vault_a_amount: 100, vault_b_amount: 200, lp_supply: 100 };
    assert_eq!(deposit::handler(&d, DepositMode::Paired, 10, 10, 0), Err(AmmError::InsufficientLiquidity));
    // the instructions' own refusals come first
    assert_eq!(swap::handler(&s, SwapDirection::AToB, 0, 0), Err(AmmError::ZeroSwapAmount));
    assert_eq!(deposit::handler(&d, DepositMode::Paired, 0, 10, 0), Err(AmmError::ZeroDepositAmount));
    let mut closed = p;
    closed.single_sided_deposits_enabled = false;
    let d = Deposit { pool: closed, vault_a_amount: 100, vault_b_amount: 200, lp_supply: 100 };
    assert_eq!(
        deposit::handler(&d, DepositMode::SingleSidedA, 10, 0, 0),
        Err(AmmError::SingleSidedDepositsDisabled)
    );
}

#[test]
fn swap_keeps_fees_backed_example() {
    let mut p = pool();
    p.protocol_fees_a = 7;
    p.protocol_fees_b = 3;
    let (va, vb) = (10_007u64, 10_003u64);
    let accounts = Swap { pool: p, vault_a_amount: va, vault_b_amount: vb };
    let outcome = swap::handler(&accounts, SwapDirection::AToB, 1_000, 0).unwrap();
    let mut after = p;
    record_protocol_fee(&mut after, SwapDirection::AToB, outcome.protocol_fee_cut).unwrap();
    assert!(after.protocol_fees_a <= va + outcome.amount_in);
    assert!(after.protocol_fees_b <= vb - outcome.amount_out);
}
