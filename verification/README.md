# aggregator

A decentralised-exchange aggregator. It keeps one order book per token pair, simulates fills
against the books, and finds the route of at most three trades that turns an amount of one token
into the most of another.

`src/` is a library verified with Verus:

- `orderbook`, `matching`: order books and simulated fills.
- `store`: the concurrent hash maps of the `scc` crate, with the contracts that are taken on trust.
- `graph`, `tracker`: the books with the graph of tokens they connect, and when each was updated.
- `routing`: what a route is, which one is best, and the search that finds it.
- `dex`: the aggregator with health tracking, circuit breaker, rate limit and counters.
- `health`: the same without circuit breaker and processors.
- `takehome`: the plain aggregator, books and routes only.
- `clock`, `freshness`, `metrics`, `duration`, `text`, `types`: what the others share.

Functions that read the machine's clock have a twin that takes the time as an argument
(`process_request` and `process_request_at`); the twin's contract is exact. The books and the
circuit breaker each have a clock of their own.

`app/` puts the library behind a lock for many threads, with async traits, logs and error types.
`tests/` runs the library on concrete values.
