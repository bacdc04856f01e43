use eutxo_amm::errors::AmmError;
use eutxo_amm::math::{
    get_deposit_lp_amount, get_proportional_amount, get_single_sided_deposit_lp_amount,
    get_swap_quote, get_withdraw_amounts, integer_sqrt, mul_div_u64, SwapQuote, BPS_DENOMINATOR,
};

const MAX: u64 = u64::MAX;

// ---- documented scenarios ----

#[test]
fn swap_quote_basic_no_fee() {
    let quote = get_swap_quote(1_000, 10_000, 10_000, 0).unwrap();
    // x*y=k: (10000+1000) * (10000 - out) = 10000*10000
    // out = 10000 - 100000000/11000 = 10000 - 9090 = 909 (approx)
    assert!(quote.amount_out > 0);
    assert!(quote.amount_out < 1_000);
    assert_eq!(quote.fee_amount, 0);
}

#[test]
fn swap_quote_with_fee_reduces_output() {
    let no_fee = get_swap_quote(1_000, 10_000, 10_000, 0).unwrap();
    let with_fee = get_swap_quote(1_000, 10_000, 10_000, 30).unwrap();
    assert!(with_fee.amount_out < no_fee.amount_out);
    assert_eq!(with_fee.fee_amount, 3); // 1000 * 30/10000 = 3
}

#[test]
fn swap_quote_rejects_zero_amount() {
    assert!(get_swap_quote(0, 10_000, 10_000, 30).is_err());
}

#[test]
fn swap_quote_rejects_empty_reserves() {
    assert!(get_swap_quote(1_000, 0, 10_000, 30).is_err());
    assert!(get_swap_quote(1_000, 10_000, 0, 30).is_err());
}

#[test]
fn swap_quote_rejects_fee_at_or_above_100_percent() {
    assert!(get_swap_quote(1_000, 10_000, 10_000, 10_000).is_err());
}

#[test]
fn deposit_bootstrap_uses_sqrt_product() {
    let lp = get_deposit_lp_amount(10_000, 40_000, 0, 0, 0).unwrap();
    // sqrt(10000 * 40000) = sqrt(400_000_000) = 20000
    assert_eq!(lp, 20_000);
}

#[test]
fn deposit_proportional_after_bootstrap() {
    // Pool already has 10000:40000 with lp_supply 20000.
    // Depositing another 10000:40000 should double LP supply.
    let lp = get_deposit_lp_amount(10_000, 40_000, 10_000, 40_000, 20_000).unwrap();
    assert_eq!(lp, 20_000);
}

#[test]
fn deposit_imbalanced_takes_minimum_ratio() {
    // lp_from_a = 20000 * 5000 / 10000 = 10000
    // lp_from_b = 20000 * 10000 / 40000 = 5000
    let lp = get_deposit_lp_amount(5_000, 10_000, 10_000, 40_000, 20_000).unwrap();
    assert_eq!(lp, 5_000);
}

#[test]
fn withdraw_pro_rata() {
    let (a, b) = get_withdraw_amounts(10_000, 20_000, 10_000, 40_000).unwrap();
    // withdrawing half the LP supply returns half of each reserve
    assert_eq!(a, 5_000);
    assert_eq!(b, 20_000);
}

#[test]
fn withdraw_rejects_more_than_supply() {
    assert!(get_withdraw_amounts(30_000, 20_000, 10_000, 40_000).is_err());
}

#[test]
fn proportional_amount_matches_ratio() {
    // reserve_known=10000, reserve_other=40000 -> ratio 1:4
    let amount = get_proportional_amount(2_500, 10_000, 40_000).unwrap();
    assert_eq!(amount, 10_000);
}

#[test]
fn single_sided_deposit_mints_less_than_double_sided_equivalent() {
    let single_sided =
        get_single_sided_deposit_lp_amount(2_000, 10_000, 40_000, 20_000, 30).unwrap();
    let balanced = get_deposit_lp_amount(1_000, 4_000, 10_000, 40_000, 20_000).unwrap();
    assert!(single_sided > 0);
    // Fee drag means single-sided should mint slightly less.
    assert!(single_sided <= balanced);
}

#[test]
fn integer_sqrt_known_values() {
    assert_eq!(integer_sqrt(0), 0);
    assert_eq!(integer_sqrt(1), 1);
    assert_eq!(integer_sqrt(4), 2);
    assert_eq!(integer_sqrt(400_000_000), 20_000);
    assert_eq!(integer_sqrt(399_999_999), 19_999); // floor, not round
}

// ---- exact values, edges and every refusal ----

#[test]
fn bps_denominator_is_one_whole() {
    assert_eq!(BPS_DENOMINATOR, 10_000);
}

#[test]
fn mul_div_exact_values() {
    assert_eq!(mul_div_u64(7, 5, 2), Ok(17));
    assert_eq!(mul_div_u64(MAX, MAX, MAX), Ok(MAX));
    assert_eq!(mul_div_u64(0, MAX, 3), Ok(0));
}

#[test]
fn mul_div_refusals() {
    assert_eq!(mul_div_u64(1, 1, 0), Err(AmmError::InsufficientLiquidity));
    assert_eq!(mul_div_u64(MAX, 2, 1), Err(AmmError::MathOverflow));
}

#[test]
fn integer_sqrt_large_values() {
    let m = MAX as u128;
    assert_eq!(integer_sqrt(m * m), m);
    assert_eq!(integer_sqrt(m * m - 1), m - 1);
    assert_eq!(integer_sqrt(u128::MAX - 1), m);
    assert_eq!(integer_sqrt(2), 1);
    assert_eq!(integer_sqrt(3), 1);
    assert_eq!(integer_sqrt(15), 3);
    assert_eq!(integer_sqrt(16), 4);
}

#[test]
fn swap_quote_exact_values() {
    // after fee: 997; out = 10000 * 997 / 10997 = 906
    assert_eq!(
        get_swap_quote(1_000, 10_000, 10_000, 30),
        Ok(SwapQuote { amount_out: 906, fee_amount: 3 })
    );
    // no fee: out = 10000 * 1000 / 11000 = 909
    assert_eq!(
        get_swap_quote(1_000, 10_000, 10_000, 0),
        Ok(SwapQuote { amount_out: 909, fee_amount: 0 })
    );
    // fee of 9999 bps leaves 1 unit of a 10000 input to price
    assert_eq!(
        get_swap_quote(10_000, 10_000, 10_000, 9_999),
        Ok(SwapQuote { amount_out: 0, fee_amount: 9_999 })
    );
}

#[test]
fn swap_quote_refusal_variants() {
    assert_eq!(get_swap_quote(0, 10, 10, 0), Err(AmmError::ZeroSwapAmount));
    assert_eq!(get_swap_quote(1, 0, 10, 0), Err(AmmError::InsufficientLiquidity));
    assert_eq!(get_swap_quote(1, 10, 0, 0), Err(AmmError::InsufficientLiquidity));
    assert_eq!(get_swap_quote(1, 10, 10, 10_000), Err(AmmError::FeeTooHigh));
    assert_eq!(get_swap_quote(1, 10, 10, u16::MAX), Err(AmmError::FeeTooHigh));
}

#[test]
fn swap_quote_extreme_reserves_never_overflow() {
    let q = get_swap_quote(MAX, MAX, MAX, 0).unwrap();
    assert_eq!(q.amount_out, MAX / 2);
    assert_eq!(q.fee_amount, 0);
    let q = get_swap_quote(1, MAX, MAX, 0).unwrap();
    assert_eq!(q.amount_out, 0);
}

#[test]
fn swap_keeps_product_of_reserves() {
    let (r_in, r_out, amount_in) = (12_345u64, 67_890u64, 4_321u64);
    let q = get_swap_quote(amount_in, r_in, r_out, 25).unwrap();
    let before = r_in as u128 * r_out as u128;
    let after_priced = (r_in + amount_in - q.fee_amount) as u128 * (r_out - q.amount_out) as u128;
    let after_vault = (r_in + amount_in) as u128 * (r_out - q.amount_out) as u128;
    assert!(q.amount_out < r_out);
    assert!(after_priced >= before);
    assert!(after_vault >= before);
    // a fee was charged, so the product over the full input strictly grows
    assert!(q.fee_amount > 0);
    assert!(after_vault > before);
}

#[test]
fn higher_fee_never_pays_more_example() {
    let low = get_swap_quote(50_000, 123_456, 654_321, 5).unwrap();
    let high = get_swap_quote(50_000, 123_456, 654_321, 100).unwrap();
    assert!(high.amount_out <= low.amount_out);
    assert!(high.fee_amount >= low.fee_amount);
}

#[test]
fn deposit_bootstrap_edges() {
    assert_eq!(get_deposit_lp_amount(MAX, MAX, 0, 0, 0), Ok(MAX));
    assert_eq!(get_deposit_lp_amount(1, 1, 0, 0, 0), Ok(1));
    // reserves are not read while the LP supply is zero
    assert_eq!(get_deposit_lp_amount(2, 8, 7, 0, 0), Ok(4));
    // floor, not round: sqrt(3 * 5) = 3.87
    assert_eq!(get_deposit_lp_amount(3, 5, 0, 0, 0), Ok(3));
}

#[test]
fn deposit_refusal_variants() {
    assert_eq!(get_deposit_lp_amount(0, 1, 1, 1, 1), Err(AmmError::ZeroDepositAmount));
    assert_eq!(get_deposit_lp_amount(1, 0, 0, 0, 0), Err(AmmError::ZeroDepositAmount));
    assert_eq!(get_deposit_lp_amount(1, 1, 0, 1, 1), Err(AmmError::InsufficientLiquidity));
    assert_eq!(get_deposit_lp_amount(1, 1, 1, 0, 1), Err(AmmError::InsufficientLiquidity));
    assert_eq!(get_deposit_lp_amount(MAX, 1, 1, 1, MAX), Err(AmmError::MathOverflow));
    assert_eq!(get_deposit_lp_amount(1, MAX, 1, 1, MAX), Err(AmmError::MathOverflow));
    assert_eq!(get_deposit_lp_amount(1, 1, 1_000, 1_000, 10), Err(AmmError::ZeroLpTokensMinted));
}

#[test]
fn deposit_never_dilutes_example() {
    let (a, b, ra, rb, s) = (777u64, 3_001u64, 10_000u64, 40_000u64, 20_000u64);
    let minted = get_deposit_lp_amount(a, b, ra, rb, s).unwrap();
    assert!(minted as u128 * ra as u128 <= a as u128 * s as u128);
    assert!(minted as u128 * rb as u128 <= b as u128 * s as u128);
}

#[test]
fn deposit_then_withdraw_returns_at_most_deposit() {
    let (a, b, ra, rb, s) = (1_234u64, 5_000u64, 10_000u64, 40_000u64, 20_000u64);
    let minted = get_deposit_lp_amount(a, b, ra, rb, s).unwrap();
    let (back_a, back_b) = get_withdraw_amounts(minted, s + minted, ra + a, rb + b).unwrap();
    assert!(back_a <= a);
    assert!(back_b <= b);
    // first deposit into an empty pool comes back in full
    let minted = get_deposit_lp_amount(10_000, 40_000, 0, 0, 0).unwrap();
    assert_eq!(get_withdraw_amounts(minted, minted, 10_000, 40_000), Ok((10_000, 40_000)));
}

#[test]
fn proportional_amount_edges() {
    assert_eq!(get_proportional_amount(1, 3, 10), Ok(3));
    assert_eq!(get_proportional_amount(5, 0, 10), Err(AmmError::InsufficientLiquidity));
    assert_eq!(get_proportional_amount(MAX, 1, 2), Err(AmmError::MathOverflow));
}

#[test]
fn withdraw_refusal_variants() {
    assert_eq!(get_withdraw_amounts(0, 10, 10, 10), Err(AmmError::ZeroLpBurnAmount));
    assert_eq!(get_withdraw_amounts(1, 0, 10, 10), Err(AmmError::InsufficientLiquidity));
    assert_eq!(get_withdraw_amounts(11, 10, 10, 10), Err(AmmError::InsufficientLpBalance));
}

#[test]
fn withdraw_whole_supply_returns_both_reserves() {
    assert_eq!(get_withdraw_amounts(MAX, MAX, MAX, 17), Ok((MAX, 17)));
    assert_eq!(get_withdraw_amounts(3, 3, 10, 20), Ok((10, 20)));
    // pro-rata rounds down
    assert_eq!(get_withdraw_amounts(1, 3, 10, 20), Ok((3, 6)));
}

#[test]
fn single_sided_exact_value() {
    // half = 1000 swapped at 30 bps: out = 40000 * 997 / 10997 = 3626
    // post-swap reserves 11000 : 36374; remaining 1000 A with 3626 B
    // lp = min(20000 * 1000 / 11000, 20000 * 3626 / 36374) = min(1818, 1993) = 1818
    assert_eq!(get_single_sided_deposit_lp_amount(2_000, 10_000, 40_000, 20_000, 30), Ok(1_818));
}

#[test]
fn single_sided_refusal_variants() {
    assert_eq!(get_single_sided_deposit_lp_amount(0, 10, 10, 10, 30), Err(AmmError::ZeroDepositAmount));
    assert_eq!(get_single_sided_deposit_lp_amount(10, 0, 10, 10, 30), Err(AmmError::InsufficientLiquidity));
    assert_eq!(get_single_sided_deposit_lp_amount(10, 10, 0, 10, 30), Err(AmmError::InsufficientLiquidity));
    // an input of one unit leaves nothing to swap
    assert_eq!(get_single_sided_deposit_lp_amount(1, 10, 10, 10, 30), Err(AmmError::ZeroSwapAmount));
    assert_eq!(get_single_sided_deposit_lp_amount(10, 10, 10, 10, 10_000), Err(AmmError::FeeTooHigh));
    // the post-swap input reserve no longer fits
    assert_eq!(get_single_sided_deposit_lp_amount(2, MAX, 10, 10, 0), Err(AmmError::MathOverflow));
    // the swap's output rounds to zero, so the paired half is empty
    assert_eq!(get_single_sided_deposit_lp_amount(2, 1_000, 10, 10, 0), Err(AmmError::ZeroDepositAmount));
}

#[test]
fn round_trip_swap_never_profits_example() {
    let (r_in, r_out, x, fee) = (10_000u64, 40_000u64, 3_000u64, 30u16);
    let first = get_swap_quote(x, r_in, r_out, fee).unwrap();
    let second = get_swap_quote(first.amount_out, r_out - first.amount_out, r_in + x, fee).unwrap();
    assert!(second.amount_out <= x);
    // even with no fee, rounding keeps the trader from profiting
    let first = get_swap_quote(x, r_in, r_out, 0).unwrap();
    let second = get_swap_quote(first.amount_out, r_out - first.amount_out, r_in + x, 0).unwrap();
    assert!(second.amount_out <= x);
}

fn share_value_kept(k_after: u128, supply_before: u128, k_before: u128, supply_after: u128) -> bool {
    // k_after * supply_before^2 >= k_before * supply_after^2, without overflow for small pools
    k_after * supply_before * supply_before >= k_before * supply_after * supply_after
}

#[test]
fn operations_keep_lp_share_value_example() {
    let (ra, rb, s) = (10_000u64, 40_000u64, 20_000u64);
    let k = ra as u128 * rb as u128;

    let minted = get_deposit_lp_amount(1_001, 3_999, ra, rb, s).unwrap();
    let k_after = (ra + 1_001) as u128 * (rb + 3_999) as u128;
    assert!(share_value_kept(k_after, s as u128, k, (s + minted) as u128));

    let minted = get_single_sided_deposit_lp_amount(2_001, ra, rb, s, 30).unwrap();
    let k_after = (ra + 2_001) as u128 * rb as u128;
    assert!(share_value_kept(k_after, s as u128, k, (s + minted) as u128));

    let (out_a, out_b) = get_withdraw_amounts(7_777, s, ra, rb).unwrap();
    let k_after = (ra - out_a) as u128 * (rb - out_b) as u128;
    assert!(share_value_kept(k_after, s as u128, k, (s - 7_777) as u128));
}

#[test]
fn integer_sqrt_of_largest_u128() {
    assert_eq!(integer_sqrt(u128::MAX), MAX as u128);
}

#[test]
fn swap_quote_monotone_example() {
    let base = get_swap_quote(1_000, 10_000, 10_000, 30).unwrap().amount_out;
    assert!(get_swap_quote(1_001, 10_000, 10_000, 30).unwrap().amount_out >= base);
    assert!(get_swap_quote(1_000, 9_999, 10_000, 30).unwrap().amount_out >= base);
    assert!(get_swap_quote(1_000, 10_000, 10_001, 30).unwrap().amount_out >= base);
    assert!(get_swap_quote(1_000, 10_000, 10_000, 29).unwrap().amount_out >= base);
}

#[test]
fn split_withdrawal_never_pays_more_example() {
    let (s, ra, rb) = (7u64, 100u64, 53u64);
    let (a1, b1) = get_withdraw_amounts(3, s, ra, rb).unwrap();
    let (a2, b2) = get_withdraw_amounts(2, s - 3, ra - a1, rb - b1).unwrap();
    let (a, b) = get_withdraw_amounts(5, s, ra, rb).unwrap();
    assert!(a1 + a2 <= a);
    assert!(b1 + b2 <= b);
}
