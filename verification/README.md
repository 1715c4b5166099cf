# topola

The verified core of Topola, an interactive topological router for printed
circuit boards, written in Verus.

- `src/math`: rotation senses, and the cyclic breadth-first partition search that
  finds where a cyclic sequence of booleans changes value.
- `src/router`: the A* and Theta* searches, advanced one step at a time, over any
  graph that lists its edges by id; alignments of traces on navmesh edges; the
  tracer's status.
- `src/specctra`: the tokenizer of the Specctra design format, the readers of
  named, optional and repeated lists, and the lists of the format that hold no
  floating-point numbers.
- `src/stepper.rs`, `src/step.rs`: the traits of steppers.
- `src/rules.rs`, `src/weight.rs`: conditions of design rules, and weights of
  primitives.
- `src/overlay.rs`: the user's selection of board nodes.

`app/` holds what the verified core does not: geometry on floating-point
coordinates, reading files from readers, the lists of the format that hold
floating-point numbers, and the loops that drive steppers to their end.
