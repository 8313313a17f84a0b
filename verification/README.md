# payment_engine

A single-threaded toy payments engine whose business rules are proved with
Verus. It reads a CSV of transactions (deposit, withdrawal, dispute, resolve,
chargeback), applies them in order to per-client accounts, and writes the
final balances as CSV.

Layout:

- `src/amount.rs`: money as a decimal held by its parts (96-bit mantissa and
  scale); its sums, differences, comparisons and the rounding of parsed
  amounts to four places are those of `rust_decimal`, called behind small
  trusted wrappers.
- `src/model.rs`: transactions, accounts, deposit records, rejection errors.
- `src/store.rs`: the accounts and retained deposits, over `HashMap`s.
- `src/engine.rs`: the rules, as exact specifications (`process_outcome`) that
  `PaymentEngine::process` is proved to follow.
- `src/io.rs`: CSV row to transaction conversion, per-row processing, and the
  output rows.
- `src/laws.rs`: properties across transactions: the invariant that held funds
  are exactly the open disputes (hence never negative), rejections leave state
  untouched, a resolve undoes a dispute, locks and chargebacks are permanent,
  two transactions that name different clients and different tx ids commute.
  Where `rust_decimal` rounds a sum that needs more than 96 bits, the laws on
  held funds are stated for the steps whose arithmetic is exact.
- `app/main.rs`: the command line (`payment_engine transactions.csv`): file
  and CSV reading with serde, error messages, CSV output.
- `tests/`: the engine, store, conversion and end-to-end scenarios.
