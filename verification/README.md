# tests_turmoil

Deterministic simulation of Raft clusters: the rules of the simulation as a verified
library, and the programs that run it on top of
[turmoil](https://github.com/tokio-rs/turmoil) and
[openraft](https://github.com/databendlabs/openraft).

A fuzzer steps a simulated cluster tick by tick. After every tick it takes a snapshot
of each node and checks the cluster's invariants: at most one leader per term, leaders
that hold what was committed in earlier terms, equal terms in the entries that two nodes
have both committed, and equal state machines after the same index. Everything random in
a run is drawn from its seed, so a failure is reproduced by running the seed again with
the same options: a report gives the command.

## The library

`src/` is written in [Verus](https://github.com/verus-lang/verus). Its functions have
contracts, and these are proved, except for those of the few calls into other crates
that are named below.

| module | what it holds |
| --- | --- |
| `typ`, `store` | nodes, requests, and what is known of a node's state |
| `invariants` | the checks of the invariants |
| `safety`, `agreement`, `listing` | what a report of the checks means |
| `network` | the wire protocol and the dispatch of requests |
| `cluster` | names, addresses and seeds of nodes; the state that is observed |
| `client`, `history` | the random client, the record of its operations |
| `options`, `derived`, `campaign` | the fuzzer's command line, configuration and reports |
| `iteration`, `agents` | one iteration of the fuzzer, and what disturbs it |
| `orchestrator`, `crash_data`, `fake_fuzz` | repeated runs of the fuzzer, and a stand-in for it |
| `rng` | the seeded generator |
| `text`, `calendar`, `strmap`, `ordered` | decimal text, dates, maps from text, ordered sets |

What is taken on trust, and not proved, is in `rng` (the draws of `rand`'s `StdRng`,
each a function of the generator's state), in `crash_data` (what `serde_json` reads)
and in `orchestrator` (the form of a random UUID). Probabilities are floating-point
numbers and stay outside: the caller draws them from the generator that the library
hands it.

## The programs

`app/` holds what touches the outside: sockets, storage, files and processes. The name
of the executable picks the program.

* `fuzz --seed <SEED> --max-steps <N>` runs iterations from a seed on.
* `fuzz --reproduce <SEED> --max-steps <N>` runs one iteration again.
* `orchestrator` runs the fuzzer continuously; see `app/orchestrator.rs` for its
  environment variables.
* `fake_fuzz` stands in for the fuzzer.
* `chaos` runs a few scenarios.
