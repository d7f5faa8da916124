# shallowred

A UCI chess engine written in Verus. The search is specified by spec
functions that follow it step by step — `q_value` for quiescence,
`nm_value` for negamax with its table cuts and prunings (reverse futility,
null move, late-move reductions and move-count pruning), `root_value` for
the aspiration windows and `deepening` for iterative deepening — and the
code is proved to compute exactly those values and table states whenever
the search is not stopped by its flag, clock or node budget. Around them
stand proved laws: mate and stalemate scores, mate in one, the table's
answers, the exchange bounds, the network's incremental update against a
full refresh, perft. The evaluation, the static exchange evaluation, the
NNUE evaluator and the data generators are verified as well.

Searches run on one thread: the `Threads` option is read and recorded but
starts no helper search, since the transposition table is not shared.

Move generation, legality, hashing and FEN and UCI notation come from the
`cozy-chess` crate; the training data format is written by the `viriformat`
crate.

## Layout

- `src/` — the verified library.
  - `types`, `bitboard`, `board`, `attacks`: plain chess values, and the
    only calls into the move generator.
  - `eval`, `see`, `nnue`: the evaluations; `delta`: the network's
    accumulator changes held to the board difference.
  - `tt`, `position`, `search`, `clock`, `perft`: the search.
  - `text`, `uci`, `bench`: the protocol and the fixed workload.
  - `datagen`, `texel`, `train`: self-play data, opening books, and the
    training command line.
- `app/` — the program: the UCI session on its own thread, the benchmark,
  the data generators' files and threads, and the probes that read stdin.
- `tests/` — the tests, run against the compiled library.
