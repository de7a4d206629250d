# nano-infer

An inference engine for small language models in GGUF files, with everything that is
not floating point verified by Verus: reading untrusted files, quantised weights, the
tokenizer, the key/value cache, the order of work in the forward pass, sampling, and what
a command or a browser session decides.

## Layout

- `src/` is the library. Every public function in it carries a contract.
  - `gguf/`: the file format, from bytes to metadata, tensors and the model's shape.
    `gguf/laws.rs` says what holds of every file that is accepted.
  - `tensor/`, `quant/`: shapes and views; the block formats, half precision, the
    integer kernels. `quant/exact.rs` relates the kernels to the weights they stand for.
  - `tokenizer/`: byte-level BPE, its pre-tokenizer and the chat format. `laws.rs` and
    `rules.rs` say what holds of every encoding and of the merge rules.
  - `model/`: weights, cache, scratch space, and the forward pass as a plan of steps.
    `meaning.rs` says what plans compute, `refusals.rs` where they end in an error,
    `limits.rs` and `lengths.rs` that they stay inside the buffers.
  - `sample/`: filters and draws, and the generator behind them.
  - `engine/`, `cli/`, `bench.rs`: what a session, the commands and the benchmarks decide.
  - `bits.rs`, `text.rs`, `sort.rs`: floating-point patterns as integers, text, sorting.
- `tests/` runs the library on concrete values, with a small model from end to end.
- `app/` is ordinary Rust around the library: files, the clock, the browser, printing,
  and the arithmetic on floats.

Numbers cross the boundary as bit patterns (`F32Bits`, `F64Bits`) or as a type parameter.
A forward pass is planned by the library and carried out by `app/run.rs`; a sampler asks
for the arithmetic it needs and is given the results.

## What is trusted

Contracts of std functions that Verus has no specification for: `char::from_u32`,
`String::push`, `String::push_str`, `core::str::from_utf8`, `String::from_utf8_lossy`,
the `Debug` form of a `str`, `slice::select_nth_unstable_by` and
`slice::sort_unstable_by`. Each is stated where it is used.
