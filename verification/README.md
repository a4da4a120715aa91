# span_registry

A registry of `tracing` spans, verified with [Verus](https://github.com/verus-lang/verus), and a
layer that prints events.

- `src/` is the library. Its functions state in `requires` and `ensures` what they ask for and what
  they give, and its `law_` functions prove what holds across calls: that exiting undoes entering,
  that closing a span takes only that span away, that the spans around a span are visited from the
  root of its trace down.
- `src/slab.rs` holds what is taken on trust: the calls of `sharded_slab`, which hands out the keys
  of spans.
- `tests/` runs the library on concrete values.
- `app/` plugs the library into `tracing`: a subscriber around the registry, a layer that writes out
  what the console layer gives to print, and a small traced loop.
