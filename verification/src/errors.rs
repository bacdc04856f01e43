use vstd::prelude::*;

verus! {

/// Every way an instruction of the pool can refuse to run.
#[derive(Debug, Clone, Copy, PartialEq, Eq, Structural)]
pub enum AmmError {
    /// Token A mint and token B mint must differ.
    IdenticalMints,
    /// Mints must be provided in canonical order (mint_a < mint_b).
    MintsNotCanonicalOrder,
    /// Fee in basis points must be less than 10000 (100%).
    FeeTooHigh,
    /// Protocol fee share in basis points must be at most 10000.
    ProtocolFeeShareTooHigh,
    /// Deposit amounts must be greater than zero.
    ZeroDepositAmount,
    /// Swap input amount must be greater than zero.
    ZeroSwapAmount,
    /// This pool does not allow single-sided deposits.
    SingleSidedDepositsDisabled,
    /// Resulting LP token amount is zero: deposit too small relative to pool size.
    ZeroLpTokensMinted,
    /// Output amount below the minimum the caller specified.
    SlippageExceeded,
    /// Required input above the maximum the caller specified.
    ExcessiveInputRequired,
    /// Pool reserves cannot be zero for this operation.
    InsufficientLiquidity,
    /// Arithmetic overflow.
    MathOverflow,
    /// Arithmetic underflow.
    MathUnderflow,
    /// Pool is currently paused for swaps and deposits.
    PoolPaused,
    /// LP token amount to burn must be greater than zero.
    ZeroLpBurnAmount,
    /// Insufficient LP token balance for this withdrawal.
    InsufficientLpBalance,
    /// Only the pool admin may perform this action.
    Unauthorized,
    /// No protocol fees available to collect.
    NoFeesToCollect,
    /// Provided token mint does not match this pool's configured mint.
    MintMismatch,
}

} // verus!
