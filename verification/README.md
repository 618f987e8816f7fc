# jackal

The search-tree and exchange-evaluation core of the Jackal MCTS chess engine, written in
Verus and verified.

- `src/` is the verified library: node indices and game-state codes, edges and nodes,
  tree segments, the two-segment `Tree` and the four-segment `SearchTree`, the
  evaluation cache, search limits and counters, sliding and leaper attack sets, static
  exchange evaluation, the policy network's input features, training-data board packing,
  and the parsing of the command line
  and of UCI `position`/`setoption` arguments.
- `app/` is the program around it: the UCI loop, the engine options with their real
  values, the floating-point score arithmetic and time manager, coloured output and the
  data-generation writer.
- `tests/` exercises the library on concrete positions and trees.
