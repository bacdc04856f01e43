# eutxo_amm

A constant-product (x * y = k) automated market maker for token pairs,
with paired and single-sided liquidity deposits, pro-rata withdrawals, a
swap fee of which a share is earmarked as protocol revenue, an
administrator who can pause swaps and deposits (never withdrawals), and
canonical ordering of the two mints so a pair has exactly one pool.

## Layout

- `src/` — the verified library (Verus).
  - `math.rs`: the curve arithmetic (swap quotes, LP amounts for paired and
    single-sided deposits, withdrawal amounts, `(a * b) / c`, integer square
    root), each with a contract stated over mathematical integers.
  - `laws.rs`: what the arithmetic keeps — the product of reserves never
    falls in a swap, a quote is monotone in input, fee and reserves, a
    round-trip swap never profits, deposits never dilute existing LPs,
    withdrawals are pro-rata and splitting one never pays more, no operation
    lowers the value of an LP share, LPs are never paid out of the
    protocol's earmarked fees, and vaults that cover those fees still cover
    them after every withdrawal, deposit and swap.
  - `state.rs`: the pool's data and the byte-wise order of addresses.
  - `instructions/`: the decision part of each instruction (initialize a
    pool, deposit, swap, withdraw, pause, collect protocol fees): from the
    pool state and the balances read from its accounts to what the
    instruction moves and records. Swaps, deposits and withdrawals are
    priced against the LP reserves: each vault's balance less the protocol
    fees earmarked on its side, or nothing where those fees take it all.
    No instruction refuses because of the earmarked fees.
- `tests/` — tests of the library on concrete values.
- `app/` — the on-chain program built with Anchor: account validation, the
  token transfers, mints and burns, and the entry points. It hands the
  library plain values and acts on what it returns.
