# feliks

A small metro traffic simulation, verified with Verus.

- `src/` is the library. Lines with their station time tables, stations with
  waiting passengers, trains with passengers on board, a registry of
  passengers, a scheduler that hands out timed events earliest first, and the
  engine that drains due events. Every function has a contract. Verus checks
  all of them except `draw_in_range` in `src/draw.rs`, which calls the `rand`
  crate and whose contract is trusted. The statements that record the network in a graph database are
  built in `src/cypher.rs`, and their exact text is part of the contracts.
- `app/` is the program. It builds a sample network, runs the clock, and can
  send the statements to a Neo4j server.
- `tests/` runs the library on concrete values.
