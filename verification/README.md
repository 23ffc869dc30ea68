# invariant_fuzz

The verified core of a stateful fuzzer for EVM contracts. A campaign sends sequences of generated
transactions to deployed contracts and checks after the calls that the invariants of a test contract
still hold, or looks for the sequence that makes an invariant return its largest value.

The library (`src/`) decides; a host performs what it asks for. What the library does is stated in
`requires` and `ensures` clauses and proved by Verus, but for what is left to chance: of a random
choice it is stated what it chooses from, and functions that take the draws as arguments state what
comes of each. What the library takes from other crates is wrapped in functions whose contracts are
believed, each with a doc comment that names the function behind it.

## Modules

| Module | What it holds |
| --- | --- |
| `fixed`, `text`, `ordered` | byte strings and words, text, maps in key order |
| `sol`, `abi` | Solidity types and values, functions, selectors and calldata |
| `tx`, `config` | transactions, the configuration of a campaign, the contract that is checked |
| `failure`, `metrics`, `run` | failures and their keys, counts, what a worker collects |
| `result` | what follows from the outcome of a call |
| `worker` | a worker as a state machine: events in, actions out |
| `shared` | what workers share and report |
| `aggregate`, `campaign` | the result of a campaign, and a campaign from start to end |
| `executor`, `artifacts`, `selection`, `filters`, `targets` | which artifacts, contracts, functions and senders are used |
| `execute` | what is adjusted before a call, and what is sent |
| `random`, `dictionary`, `param`, `calldata`, `strategy` | the values, calldata, senders and delays of the next call |
| `call_override` | calls that take the place of external calls, and their replay |

Laws that relate several functions are public proof functions beside what they speak of.

`app/` is the host: threads, clock, progress and event log around the library. It leaves the chain,
the corpus, the project and the generator of values to traits.
