# usvg_flatten

A usvg tree as a flat display list — `Fill`, `Stroke`, `Image`,
`PushLayer`/`PopLayer` and `Raster` operations in paint order — with the walk
that decides them verified by Verus.

- `src/` is the verified library. `scene` models the tree the walk reads,
  `plan` is the walk and its specification, `laws` proves what every list it
  produces satisfies (layers nest, a path is all vector or all pixels,
  every identifier names a node of the right kind,
  transforms accumulate from the outside in, what stays vector), `layers` is
  the order of steps a replayer takes through a list's layers, and `wire`
  mirrors the plain values for the foreign-function binding.
- `app/` reads a parsed usvg tree into the scene, fills the plan's named
  geometry in with usvg's floating-point coordinates, rasterizes fallbacks
  with resvg, replays a list with tiny-skia, and exposes the whole through
  UniFFI.
- `tests/` runs the walk, the replay order and the binding's conversions on
  concrete values.
