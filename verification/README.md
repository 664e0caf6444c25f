# jepa_predict

State management for a joint-embedding prediction engine, verified with Verus.

The library keeps the engine's state and makes its decisions; it is generic
over the component type of the state vectors and never does arithmetic on
components.

- `src/window.rs`: a bounded first-in first-out window (`Window`) and the
  spec `recent`, the last `cap` elements of a sequence.
- `src/vector_db.rs`: `VectorDb`, a store of named vectors, with
  nearest-neighbour and k-nearest-neighbour selection over caller-supplied
  distance order keys, and the laws relating the two.
- `src/engine.rs`: `JepaEngine`, a database plus a bounded history.
- `src/moving_average.rs`, `src/batch.rs`: one moving-average window, and one
  per named channel.
- `src/conservation.rs`, `src/prediction.rs`: the recorded values of a
  conservation tracker, and predictions.

`app/lib.rs` instantiates the library with `f32` and adds the floating-point
operations (distances, averages, extrapolation, surprise, totals) as traits.
