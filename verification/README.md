# causm

The intermediate representation and optimiser of the causm language, as a
Verus library: every function in `src/` carries a contract that Verus proves.

## Layout

- `src/ir.rs`, `src/instruction.rs`, `src/properties.rs`: the flat instruction
  set and the register facts the passes read.
- `src/blockmap.rs`, `src/cfg.rs`, `src/dot.rs`: control-flow graphs built from
  instruction lists, and their Graphviz text.
- `src/ssa/`: SSA form — renaming (`rename.rs`, `sequence.rs`), the transformer
  that places phi nodes and renames along the dominator tree
  (`transformer.rs`), single assignment (`unique.rs`) and listings
  (`display.rs`).
- `src/optimize/`: the passes (constant and copy propagation, control-flow
  simplification, entropy, channel liveness, leases, concurrency checks,
  coalescing, dead code, SSA checks), the pass manager, leaving SSA form and
  laying graphs out flat, and the whole pipeline (`pipeline.rs`).
- `src/program.rs`: whole programs — pruning unreachable routines, import
  duplicates, optimising every list, the program listing.
- `src/debug_text.rs`, `src/text.rs`: the debug texts of instructions and
  terminators, and text building.
- `src/duration.rs`: durations in source text, in milliseconds.
- `src/jit/`: the routine cache and its fingerprint, runtime arrays and
  strings, the cycle budget of hard real-time timelines.
- `src/plugin.rs`: the host context handed to plugins.
- `app/`: what Verus does not see — thread pinning and memory locking through
  libc, process-wide state, float rendering, `Display` impls and the C ABI.
- `tests/`: ordinary Rust tests of the library.

## Not part of this crate

- The front end's parsers: they walk parse trees of a grammar and build
  syntax-tree types that are not available to this crate.
- The native code generator of the JIT, which emits machine code through a
  code-generation library that is not available here.
- The plugin ABI's raw allocation entry points (`alloc`, `dealloc`,
  dispatch over raw pointers).
