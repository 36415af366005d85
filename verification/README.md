# katara

The decision-making core of a real-time particle water viewer, verified with
Verus.

`src/` is the verified library:

- `spatial_grid` — the hashed spatial grid of the CPU particle simulation:
  a stable counting sort of particles by bucket, bucket start indices, and
  the neighbour search over the 3x3 block of cells around a point.
- `stepping` — fixed-timestep scheduling with a per-frame step cap, pause,
  and single stepping.
- `frame` — frame timing and the decision whether a frame can be drawn on
  the window surface.
- `input` — fly-camera movement keys, cursor capture, keyboard shortcuts and
  window-event handling.
- `debug_watch`, `gui`, `text` — the table of named debug values and the
  lines of the debug text overlay.
- `profiler`, `timing_tree` — bounded profiling history, the CPU frame view
  settings, and the layout of the GPU timing tree.
- `overlay` — line budgeting of the debug overlay (bounding box, sampled
  grid lines).
- `dispatch` — workgroup counts, the initial particle lattice and ping-pong
  buffer selection of the GPU simulation.
- `pipeline` — pipeline identifiers and the statistics they report.

`app/` is ordinary Rust around it: configuration files, the process-wide
watch table, the system clock, the floating-point particle physics and
camera, and the float parts of the profiler and overlay.

`tests/` exercises the library on concrete values.
