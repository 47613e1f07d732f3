# atlas_spark

The host side of a speculative-decoding inference engine, verified with Verus.

The library decides what a device is asked to do: which kernels run for a
decode step, a prefill chunk or a draft, over which buffers, and in which order.
It keeps the bookkeeping around that: cache blocks, drafted rows, ring
positions, grammars for tool calls, streamed tool calls, and sampling.

## How it is stated

A backend keeps a trace of the commands it was given and of its replies. The
contract of a layer says what it appends to that trace: all of its program where
nothing was refused, else the program up to the first refusal. Where the program
depends on an address, on data or on tables that the backend answered, the
contract says so.

Single-precision numbers are carried as bit patterns and compared by them. The
library does no arithmetic on them.

## Layout

- `src/` is the library.
  - `gpu`, `op`, `trace`, `run`, `timed`, `buffers`: addresses, operations, the
    backend interface, running lists of operations and timing them, and memory
    taken and given back.
  - `attention*`, `ssm`, `moe`, `hyper_connection`, `kernel_args`: layers and
    kernel launches.
  - `mtp*`, `dspark*`, `speculative`: the two draft heads.
  - `kv_cache`, `block_mgmt`, `model`: cache blocks and the model's part in
    drafting and prefill.
  - `verify_pipeline`, `adaptive_sampler`, `tool_grammar`, `tool_stream`,
    `refusal`: picking tokens and shaping responses.
  - `quantization`, `json`, `weights`, `dumps`, `bits`, `text`, `config`:
    configuration, checkpoints, diagnostics and encodings.
  - `mock`: a device and services that answer from a script.
- `app/` reads the environment and files, does floating-point arithmetic, and
  renders responses.
- `tests/` runs the library against the stand-ins of `mock`.

## What is taken on trust

One call of the standard library, `char::to_lowercase`, stands behind a declared
contract in `src/refusal.rs`. Backends and services are traits: an
implementation is free in what it answers, and owes a trace of it.
