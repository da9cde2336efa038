# marv

The compiler library of marv, a small language of pure functions, capabilities and
contracts, written in Rust and verified with Verus.

- `src/` is the library. Every function states what it returns or changes over a
  mathematical view of its arguments, and Verus proves it.
  - `ir`, `hash`, `indices`, `pred`: the core calculus, content hashes, binders as
    indices, contracts as text.
  - `syntax` to `lower`: from source modules to the core calculus.
  - `reach`, `graph`, `hashed`: what an entry needs.
  - `wasm*`: WebAssembly modules. `llvm*`: LLVM text. `cl*`: native code, planned as
    steps (`cl_code`, `cl_eval`, `cl`) and carried out by a code generator (`cl_jit`).
  - `args`, `words`, `imports`, `loaded`, `report`: what the command line decides.
  - Laws of the whole stand in modules whose names end in `_laws`, `_release` or
    `_sound`, in those that begin with `alike` (renaming keeps functions and
    programs), in `outline` (what lowering reads of a program beside the function at
    hand), in `asking` (a definition does not depend on the instances asked for
    before it), and in `closed` (lowered functions are closed).
- `app/` is the program around the library: files, processes, and memory that runs.
- `tests/` runs the library.

What the library takes on trust is what it says of other crates and of the standard
library. It stands in four forms, and each says above it what it speaks of and what
it claims:

- functions marked `external_body`, which make one outside call;
- `assume_specification`, a contract for an outside function that is called as it is;
- outside types, declared by `external_type_specification`, in which Verus sees
  nothing;
- spec functions without a body (`uninterp`), which name what an outside function
  returns or what an outside value holds, and of which only the first two say
  anything.
