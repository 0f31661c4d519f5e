# nautilus_stg

Order-book and market-microstructure state for a trading strategy: a local
level-2 book (price levels per side, running totals, impact level, best
quotes) and the sliding time windows behind order-flow imbalance, realized
volatility, trade liquidity and price jumps.

Layout:

- `src/` is the library, verified with Verus. Prices, sizes and other
  quantities are IEEE-754 binary64 values held by their bit patterns;
  `src/ieee.rs` compares them exactly as the standard does. The library
  keeps the structure and its invariants: `ladder.rs` and `book.rs` (levels in
  price priority, at most `top_k` per side, level updates, the level at which
  an order is filled; updates are proved to keep prices distinct and sizes
  positive, and a repeated update to change nothing), `window.rs` (time
  windows), `ofi.rs`, `volatility.rs`, `liquidity.rs`, `jump.rs` (the
  calculators' windows; the jump window keeps a monotone queue whose front is
  proved to be the largest move of the window, and the jump count the number
  of moves above the threshold, when prices are recorded in timestamp order
  and no move is NaN).
- `app/` is ordinary Rust on top of the library: the floating-point
  arithmetic (prefix sums, VWAP, slippage, bailout cost, microprice, the
  features), the serializable types, and the Python bindings.
- `tests/` exercises the library on concrete values.
