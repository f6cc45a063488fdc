# satisfactory-planner

A factory planner for the game Satisfactory, written in Verus.

The library (`src/`) is verified:

- `game`: the game database — items, buildings, recipes and resource
  limits — and its construction from the database file's definitions, where
  everything refers to everything else by key (`GameDatabase::convert`).
- `plan::config`: the validation of a plan request against the database
  (`PlanConfig::parse`), with the order in which its checks report errors.
- `plan::full_plan_graph`: the graph of every way to produce the requested
  outputs, and the pruning of what cannot be produced. The contracts state
  the shape of the graph that is built and, for pruning, a set of cases
  whose outcome does not depend on the order in which the graph lists a
  node's neighbours: nodes that are surely found impossible (and are then
  removed), nodes that are surely found possible (and leave the graph
  unchanged), productions with too few feeding edges or fed by a surely
  impossible node, and what pruning a node removes around it. They
  also state which requests surely fail, which surely succeed, and that the
  graph of a complete request is kept whole. They do not state the outcome
  of pruning in general.
- `plan::lp_model`: the linear program over that graph whose solution is the
  plan.
- `plan::resource_sets`: resource bit sets and their combinations.

Amounts are carried with a type parameter and a recorded sign; the library
never computes with them.

The program (`app/`) is a web service around the library: it reads the
database file and plan requests as JSON, solves the linear program with
`good_lp`, and answers with the solved plan.
