# shape_infer

Shapes of JSON-like values and their common preferred shape, with proved contracts.

- `src/model.rs`: the mathematical model of a shape (`ShapeModel`, with records as
  maps from field names to shapes) and the rules of the common preferred shape
  (`common_shape`).
- `src/shape.rs`: the executable shapes, their views, records (field lists whose
  names are distinct, kept as a type invariant), copying, deep equality, and the
  nullability operations.
- `src/preferred.rs`: `common_preferred_shape`, proved to compute `common_shape`.
- `src/message.rs`: the counting message of `i32`, proved against a decimal
  rendering spec.
- `src/laws.rs`: the algebraic laws of the operations.
