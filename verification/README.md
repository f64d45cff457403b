# asset_exchange

A verified asset exchange: accounts deposit and withdraw registered assets, provide liquidity
to pools, and swap through a series of pools; a second module handles cross-chain deposits,
withdrawals and transfers of the exchange's assets.

- `src/exchange.rs`: the exchange's state and calls, each stated by an outcome function.
- `src/deposit.rs`: per-account balances.
- `src/pool.rs`: the pools.
- `src/laws.rs`: properties over several calls (conservation of assets, undoing deposits and
  registrations, slippage minimums, what `get_return` predicts, the pool count counting the stored pools).
- `src/xcm.rs`, `src/xcmp.rs`: cross-chain locations, assets and messages, and the transfers.
- `app/lib.rs`: runs prepared transfers against a message executor.

## The pool model

The pool arithmetic is this library's own design; the exchange only names the pool operations
(`swap`, `add_liquidity`, `remove_liquidity`, `get_return`). Pools are constant-product pools:

- a swap of `a` into reserves `x` (in) and `y` (out), with total fee `f` out of the fee divisor
  `D`, pays out `a·(D−f)·y / (D·x + a·(D−f))`, rounded down;
- the exchange and referral fee portions are paid as new liquidity shares, in proportion to the
  growth of the integer square root of the product of the two reserves;
- the first liquidity deposit takes all of it and mints the configured initial share supply;
  later deposits mint the least number of shares any single asset is worth and take of each
  asset only what these shares are worth;
- returning shares pays out each reserve in proportion, rounded down;
- every product is computed in `u128` with overflow checks (`StorageOverflow`).
