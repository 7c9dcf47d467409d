# hiroz

The logic of a robot middleware toolkit, verified with Verus: transform trees,
message schemas known at run time, code generation from interface definitions,
and the decisions of a console and of Python bindings.

## Layout

- `src/` is the library. Its functions have contracts, which Verus proves but for
  the few that are named below.
  - `tf/`: a buffer of coordinate transforms, lookups between frames, and what
    is broadcast. A lookup gives an expression over stored transforms; its value
    is computed by whoever holds the numbers.
  - `dynamic/`: schemas of messages, their registry, and their loading from
    installed definitions, step by step.
  - `codegen/`: which definitions are read, kept, resolved and emitted, and the
    text of the generated module.
  - `console/`: the Measure tab, the echo of live messages, and the watch over
    topics.
  - `py/`: service names, request keys and the loop of a callback server.
  - `names.rs` and `text.rs`: maps by name, and text as sequences of characters.
  - The `laws.rs` files state what holds across functions.
- `app/` is ordinary Rust around the library: locks, tasks, files, sessions,
  drawing and floating-point arithmetic.
- `tests/` runs the library on concrete values.

## What is trusted

`String::push` of the standard library, and two calls into `syn`: one that parses
a file of Rust items, and one that reads an identifier. Their contracts are next
to their declarations, in `src/text.rs` and `src/codegen/emit.rs`. Three types are
declared and carried through unread: `syn::Error`, `std::time::Instant` and
`std::path::PathBuf`.
