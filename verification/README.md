# soroscope

Verified models of a collection of Soroban smart contracts: an AMM with a
limit order book, English auctions and an auction factory with an admin
committee, an oracle aggregator with a rolling TWAP, a multi-pool yield
vault, batch payouts, private transfers over a commitment tree, gasless
meta-transactions, a soulbound identity token, a DID registry, storage and
CPU benchmarks, and fixed-point math.

Each contract is a state type with methods whose `requires`/`ensures`
state exactly what a call returns and how the state changes. What the host
does (token transfers, ledger time, deployment, cross-contract answers) is
passed in as plain values or handed back as lists of token movements and
events, so the contracts' own decisions are proved against their contracts.
Where a contract returns an error, the method returns it too, with exact
conditions; where a contract panics, the method's `requires` leaves those
inputs out, and a `check_*` method beside it tells on which inputs the call
may run and, if not, the error the contract stops with.
Authorization (`require_auth`), storage lifetimes and resource budgets are
the host's and are not modelled; SHA-256 and the ledger's XDR serialization
are called through a few trusted items whose results are named, not
proved.

Layout:

- `src/` the verified library, one module per contract, plus `ledger`
  (accounts, transfers, balances), `math` and `admin_guard`
  (multi-signature admin committee with pause control);
- `tests/` scenario tests of every module;
- `app/` host glue: address conversion, carrying out token movements,
  deploying and initializing the factory's auctions, and the CPU benchmark
  as a deployable contract; the other contracts have no deployable entry
  points here.
