# pranklin

The execution core of a perpetual-futures exchange, written in Verus: every
function of the library carries a contract that Verus proves.

- `src/` — the verified library: account and order services, the
  price-time-priority order book, positions and risk, funding, liquidation
  and auto-deleveraging, the mempool and its transaction index, agent
  authorization with EIP-712 nominations, transaction execution, the event
  store and its key encoding, dependency analysis for parallel execution,
  node configuration and the load-testing payload generators.
  `src/laws.rs` states and proves the properties that relate several
  operations (conservation of balances, replay protection, price-time
  priority, agent grants, and others).
- `tests/` — executable tests of the library.
- `app/` — the node's command line and start-up, and the figures that need
  floating point.
