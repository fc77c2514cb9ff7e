# ChainTrack

A terminal tool for looking up blockchain wallets (BTC, ETH, USDT on Tron and
Ethereum, SOL, BNB), analysing batches of addresses for wallets that share
counterparties, and exporting the results to `output.json` and `output.csv`.

## Layout

- `src/` — the library, verified with Verus: address detection, the link
  analysis between wallets, the per-chain bookkeeping of fetched transactions,
  the CSV rows, batch planning, text helpers of the views, and the state
  machine of the terminal interface (key presses and task results in, next
  state and work to start out). `src/laws.rs` states properties that span
  several functions.
- `app/` — the program around it: HTTP lookups and JSON decoding, the amounts
  kept as floating point, the background tasks, file output and drawing with
  ratatui.
- `tests/` — tests of the library on concrete values.

The API keys are read from `ETHERSCAN_KEY` and `BSCSCAN_KEY`.
