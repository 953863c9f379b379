# graphflow

A workflow runtime, verified with Verus.

- **Graphs** (`graph`, `compiled_graph`): named node functions over a state,
  edges (a target list may name several nodes, separated by commas),
  conditional edges whose branch function names the next node(s), an entry
  point and a finish point. `compile` checks that every name resolves;
  `invoke` runs the graph in supersteps until a superstep holds the finish
  point.
- **Superstep applications** (`pregel`): channels (`LastValue`,
  `EphemeralValue`, `Topic`, `BinaryOperatorAggregate`) and nodes that are
  triggered by updated channels, read one snapshot of all channels, and
  write values that are applied together at the end of the superstep.
- **Hooks** (`hooks`): observers of a run's lifecycle.
- **Errors** (`errors`): the error types and the text each displays as.

The functions in `src/` carry `requires`/`ensures` contracts, and the laws
that span several functions are public proof functions (`law_*`). What
user-supplied node, branch and hook functions do is stated through their
own `call_ensures`. For a graph run, `CompiledGraph::invoke` states the
nodes run in order, the state each node function was called on and the state
it left, and that each route is its branch function's answer on the state
then held. Hooks have no contract of their own.

`app/` holds the command-line demo and the logger setup, which
reads the environment.
