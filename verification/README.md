# rust_samples

A verified library behind a handful of small programs: a gRPC echo server,
a parallel file writer, a configuration printer, a CPU-pinning worker pool,
a shared string map and a pair of speakers.

- `src/` is the library, checked by Verus: each public function states what
  it returns or changes, and the proof functions state the properties that
  span several calls.
- `tests/` runs the library on concrete values.
- `app/` holds the programs themselves (`main`, I/O, the tonic and tokio
  plumbing, and what is chosen at compile time); the decisions they make at
  run time come from the library.
