# aggbook

An order book aggregator. It subscribes to the ETH-BTC order books of Bitstamp and
Binance over WebSockets, merges them into one book ranked by price, and streams the top
N bids and asks with the spread to gRPC clients.

## Layout

- `src/`: the library, verified with Verus.
  - `binary64`: prices and amounts are IEEE-754 binary64 numbers held as their bit
    patterns; this module orders and tests them with integer functions.
  - `ranking`: the ranking order of levels (best price first, then largest amount), the
    verified ranking, and the cut to the first `n` levels or prices.
  - `model`: contributor snapshots and the combined summary (`to_proto`), with the laws
    of the summary: ranked, at most N levels per side, all at the N best prices, the
    latest arrival time, and the spread.
  - `feeds`: reading Binance and Bitstamp messages (the level texts, then the snapshot
    from the converted numbers), the feed addresses, and the reconnect decision.
  - `json`: the JSON tree the feed readers work on, parsed by serde_json.
  - `instrument`: instruments, the symbols the sources list them under, and the
    instrument map over a DashMap.
  - `manager`, `publisher`: the decisions of the feed manager and of the summary
    publisher as state machines.
  - `sources`, `config`, `nanos`: source names, the bind address, duration text.
- `tests/`: tests of the library.
- `app/`: the server and client around the library: tokio tasks, WebSockets, gRPC,
  command-line parsing, the clock, and the conversions between decimal text and
  binary64 numbers.

Calls into serde_json, dashmap, humantime and `str::to_lowercase` go through a few
trusted wrappers in `src/`, each with a doc comment saying what its contract claims.
