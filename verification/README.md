# kalimorfia

The verified core of a CAD/CAM modelling tool, written in Verus.

- `src/cnc`: CNC programs. `text` (digits, `u32` parsing, line splitting,
  trimming), `number` and `location` (coordinates such as `X1.000Y-2.500`),
  `parser` (program lines, with the first failing line reported), `program`
  (the checks of a strict load, the mill steps, the mill named by the file
  extension) and `mill`.
- `src/graph.rs`: the C0 edge graph of Bezier surface borders: boundary
  edges, vertices, oriented edges and the triangles of edges that close a hole.
- `src/entities`: the patch topology of C0 and C2 surfaces, the rows of
  control points a surface is built from, the entity registry (ids and
  subscriptions), point selection helpers, entity names.
- `src/json.rs`: the surface records of scene files and the control point
  grids they stand for.
- `app/`: a command line front end that reads program and scene files, and
  the floating-point views of the library's integer values.
