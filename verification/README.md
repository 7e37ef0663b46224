# chum

A small library of composable data streams, verified with Verus.

- `Source` takes items from its user, buffers them while it has nowhere to
  send them or is corked, and hands them on in order once it is piped and
  uncorked.
- `Pipe` rewrites every item with its transformer and hands the result on.
- `Drain` hands every item to its writer and then on, unchanged.
- `Chum` is a pipeline of segments; `build_pipeline` links each segment to
  the next, so that an item written into the pipeline runs through all of
  them, and the last one writes on to its own target. `Mixed` lets one
  pipeline hold pipes and drains side by side.

Streams own the stream they are piped into, so a chain of streams is a
nested value (`Source<T, D, Pipe<T, F, Drain<T, G, H, C, Unpiped<T>>>>`).
Every writeable stream keeps a ghost record of what was written into it,
and defines `wrote(data, after)`, what it may become when `data` is
written into it, through the `wrote` of the stream it hands data on to;
so the contract of `write` says what reaches the end of a chain.

Layout: `src/stream.rs` (stream kinds and traits), `src/source.rs`,
`src/pipe.rs`, `src/drain.rs`, `src/segment.rs`, `src/chum.rs`; tests
under `tests/`.
