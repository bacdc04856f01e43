//! The pool account's data and the byte-wise ordering of account addresses.

use vstd::prelude::*;

verus! {

/// A 32-byte account address.
pub type Pubkey = [u8; 32];

/// `a` orders before `b`: at the first byte where they differ, `a`'s is
/// smaller. This is the order of addresses compared byte by byte.
pub open spec fn key_lt(a: Seq<u8>, b: Seq<u8>) -> bool {
    exists|i: int|
        0 <= i < a.len() && i < b.len() && #[trigger] a[i] < b[i]
            && forall|j: int| 0 <= j < i ==> a[j] == b[j]
}

/// Whether two addresses are the same, byte for byte.
pub fn keys_equal(a: &Pubkey, b: &Pubkey) -> (result: bool)
    ensures
        result == (a@ == b@),
{
    let mut i: usize = 0;
    while i < 32
        invariant
            0 <= i <= 32,
            a@.len() == 32,
            b@.len() == 32,
            forall|j: int| 0 <= j < i ==> a@[j] == b@[j],
        decreases 32 - i,
    {
        if a[i] != b[i] {
            return false;
        }
        i = i + 1;
    }
    assert(a@ =~= b@);
    true
}

/// Whether `a` orders strictly before `b`, comparing byte by byte.
pub fn key_less(a: &Pubkey, b: &Pubkey) -> (result: bool)
    ensures
        result == key_lt(a@, b@),
{
    let mut i: usize = 0;
    while i < 32
        invariant
            0 <= i <= 32,
            a@.len() == 32,
            b@.len() == 32,
            forall|j: int| 0 <= j < i ==> a@[j] == b@[j],
        decreases 32 - i,
    {
        if a[i] < b[i] {
            assert(key_lt(a@, b@)) by {
                assert(a@[i as int] < b@[i as int]);
            }
            return true;
        }
        if a[i] > b[i] {
            assert(!key_lt(a@, b@)) by {
                if key_lt(a@, b@) {
                    let k = choose|k: int|
                        0 <= k < a@.len() && k < b@.len() && #[trigger] a@[k] < b@[k]
                            && forall|j: int| 0 <= j < k ==> a@[j] == b@[j];
                    if k < i {
                    } else if k > i {
                        assert(a@[i as int] == b@[i as int]);
                    }
                }
            }
            return false;
        }
        i = i + 1;
    }
    assert(!key_lt(a@, b@)) by {
        if key_lt(a@, b@) {
            let k = choose|k: int|
                0 <= k < a@.len() && k < b@.len() && #[trigger] a@[k] < b@[k]
                    && forall|j: int| 0 <= j < k ==> a@[j] == b@[j];
            assert(a@[k] == b@[k]);
        }
    }
    false
}

/// Two addresses of the same length that differ are ordered one way,
/// starting the search for a difference at `from`.
proof fn lemma_key_lt_total_from(a: Seq<u8>, b: Seq<u8>, from: int)
    requires
        a.len() == b.len(),
        0 <= from <= a.len(),
        forall|j: int| 0 <= j < from ==> a[j] == b[j],
        a != b,
    ensures
        key_lt(a, b) || key_lt(b, a),
    decreases a.len() - from,
{
    if from == a.len() {
        assert(a =~= b);
    } else if a[from] == b[from] {
        lemma_key_lt_total_from(a, b, from + 1);
    } else if a[from] < b[from] {
        assert(key_lt(a, b));
    } else {
        assert(b[from] < a[from]);
        assert(key_lt(b, a));
    }
}

/// The byte-wise order on addresses is a strict total order: no address
/// orders before itself, no two addresses order before each other, and of
/// two different addresses of the same length one orders before the other.
pub proof fn lemma_key_order_is_strict_total(a: Seq<u8>, b: Seq<u8>)
    requires
        a.len() == b.len(),
    ensures
        !key_lt(a, a),
        !(key_lt(a, b) && key_lt(b, a)),
        a != b ==> key_lt(a, b) || key_lt(b, a),
{
    if a != b {
        lemma_key_lt_total_from(a, b, 0);
    }
    if key_lt(a, b) && key_lt(b, a) {
        let i = choose|i: int|
            0 <= i < a.len() && i < b.len() && #[trigger] a[i] < b[i]
                && forall|j: int| 0 <= j < i ==> a[j] == b[j];
        let k = choose|k: int|
            0 <= k < b.len() && k < a.len() && #[trigger] b[k] < a[k]
                && forall|j: int| 0 <= j < k ==> b[j] == a[j];
        if i < k {
            assert(b[i] == a[i]);
        } else if k < i {
            assert(a[k] == b[k]);
        }
    }
    if key_lt(a, a) {
        let i = choose|i: int|
            0 <= i < a.len() && i < a.len() && #[trigger] a[i] < a[i]
                && forall|j: int| 0 <= j < i ==> a[j] == a[j];
    }
}

/// Core pool state, stored in the pool's own account. The pool account is
/// also the authority over the two reserve token accounts and the LP mint.
#[derive(Debug, Clone, Copy)]
pub struct Pool {
    /// Bump seed of the pool's program-derived address.
    pub bump: u8,
    /// Mint of token A, the smaller of the two mint addresses.
    pub mint_a: Pubkey,
    /// Mint of token B.
    pub mint_b: Pubkey,
    /// Pool-owned reserve token account holding token A.
    pub vault_a: Pubkey,
    /// Pool-owned reserve token account holding token B.
    pub vault_b: Pubkey,
    /// Mint of this pool's LP (liquidity provider) share token.
    pub lp_mint: Pubkey,
    /// Swap fee in basis points (1 bps = 0.01%).
    pub fee_bps: u16,
    /// Protocol cut of the swap fee, in basis points of the fee itself.
    pub protocol_fee_share_bps: u16,
    /// Accrued protocol fees in token A, awaiting collection.
    pub protocol_fees_a: u64,
    /// Accrued protocol fees in token B, awaiting collection.
    pub protocol_fees_b: u64,
    /// Authority allowed to collect protocol fees and pause the pool.
    pub admin: Pubkey,
    /// When true, swaps and deposits are refused; withdrawals never are.
    pub paused: bool,
    /// Whether this pool accepts deposits of only one of its two tokens.
    pub single_sided_deposits_enabled: bool,
    /// Reserved space for future fields.
    pub _reserved: [u8; 64],
}

/// The part of a vault's balance that belongs to the LPs: the balance less
/// the protocol's earmarked fees, or nothing when the fees take it all.
pub open spec fn lp_reserve(vault_amount: u64, protocol_fees: u64) -> u64 {
    if protocol_fees <= vault_amount { (vault_amount - protocol_fees) as u64 } else { 0 }
}

impl Pool {
    /// Account size: discriminator (8) plus every field above.
    pub const LEN: usize = 8 + 1 + 32 + 32 + 32 + 32 + 32 + 2 + 2 + 8 + 8 + 32 + 1 + 1 + 64;

    /// Seed of the pool's program-derived address.
    pub const POOL_SEED: [u8; 4] = [112, 111, 111, 108];
    /// Seed of the token A vault's program-derived address.
    pub const VAULT_A_SEED: [u8; 7] = [118, 97, 117, 108, 116, 95, 97];
    /// Seed of the token B vault's program-derived address.
    pub const VAULT_B_SEED: [u8; 7] = [118, 97, 117, 108, 116, 95, 98];
    /// Seed of the LP mint's program-derived address.
    pub const LP_MINT_SEED: [u8; 7] = [108, 112, 95, 109, 105, 110, 116];

    /// The invariant every pool satisfies from its creation on: the mints
    /// are in canonical order, the fee is below 100% and the protocol's
    /// share of the fee is at most 100%.
    pub open spec fn well_formed(&self) -> bool {
        &&& key_lt(self.mint_a@, self.mint_b@)
        &&& self.fee_bps < 10_000
        &&& self.protocol_fee_share_bps <= 10_000
    }

    /// The same pool with only its accrued protocol fees replaced.
    pub open spec fn with_protocol_fees(self, fees_a: u64, fees_b: u64) -> Pool {
        Pool { protocol_fees_a: fees_a, protocol_fees_b: fees_b, ..self }
    }

    /// The vaults hold at least the protocol's earmarked fees on each side.
    /// Those fees sit in the vaults until collected and are never LP
    /// principal.
    pub open spec fn fees_backed(&self, vault_a_amount: int, vault_b_amount: int) -> bool {
        &&& self.protocol_fees_a <= vault_a_amount
        &&& self.protocol_fees_b <= vault_b_amount
    }

    /// The reserves that belong to the LPs: each vault's balance less the
    /// protocol's earmarked fees on that side, and nothing on a side whose
    /// vault holds no more than its earmarked fees.
    pub open spec fn lp_reserves_spec(&self, vault_a_amount: u64, vault_b_amount: u64) -> (u64, u64) {
        (lp_reserve(vault_a_amount, self.protocol_fees_a), lp_reserve(vault_b_amount, self.protocol_fees_b))
    }

    /// The reserves that belong to the LPs: each vault's balance less the
    /// protocol's earmarked fees on that side, and nothing on a side whose
    /// vault holds no more than its earmarked fees. Never refuses.
    pub fn lp_reserves(&self, vault_a_amount: u64, vault_b_amount: u64) -> (result: (u64, u64))
        ensures
            result == self.lp_reserves_spec(vault_a_amount, vault_b_amount),
    {
        let reserve_a = if self.protocol_fees_a <= vault_a_amount { vault_a_amount - self.protocol_fees_a } else { 0 };
        let reserve_b = if self.protocol_fees_b <= vault_b_amount { vault_b_amount - self.protocol_fees_b } else { 0 };
        (reserve_a, reserve_b)
    }
}

} // verus!
