# lvmt_state

The decisions of an epoch-based state store and of the Ethereum-style RPC in front
of it, verified with Verus.

- `keys`, `listing`, `change_map`, `epoch_map`: byte-string keys, their order and
  their prefix ranges; maps over them with mathematical views.
- `accumulator`: epochs that wait for one common commit, and the overlays through
  which they are read meanwhile.
- `state`: reads through the layers, writes, prefix listings, state roots, commits.
- `manager`, `maintenance`: opening states, pivots and history, and how far back
  states stay available.
- `global_stat`: the global variables of an execution.
- `eth`, `eth_types`, `eth_blocks`, `eth_calls`: what requests are answered with.
- `primitive`, `text`, `hash`: hashes, 256-bit numbers, text, and the functions of
  other crates that work on them.

Where a step needs the backend, the database or the consensus, a function says what
to ask, and another takes the reply. `app/` does the asking.
