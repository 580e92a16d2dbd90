# pilisp

A small Lisp with a cubical flavour (interval endpoints, paths, Π- and
Σ-types, glue types), written in Verus. Every function of the library, but
a few wrappers of std's Unicode and string functions, is verified against a
mathematical semantics.

## Layout

- `src/semantics.rs`: the meaning of programs, as spec functions over a
  model heap: its frames and the record of exchanges with the host. Given the
  host's answers by position (the `k`-th request gets the `k`-th answer), it
  is deterministic, and every error carries its message.
- `src/reader.rs`, `src/compiler.rs`: tokenizer, parser, and the compiler
  from named variables to De Bruijn indices.
- `src/render.rs`: how values are written out in error messages, numbers
  shown by the host.
- `src/eval.rs`: the tree-walking evaluator, proved to agree with the
  semantics.
- `src/vm/`: a stack machine, code generation for it, and the proof that it
  computes what the tree walker computes.
- `src/builtins/`: the primitives (lists, strings, cubical and dependent-type
  constructors) and the global environment.
- `src/host.rs`: what the interpreter asks of its host: reading and showing
  numbers and calling host primitives. Numbers are opaque 64-bit patterns
  to the library; `app/` uses them as `f64`.
- `src/cubical/lexer.rs`: the lexer of the cubical type theory language.
- `src/laws.rs`: properties that relate several operations, reading
  included.
- `app/main.rs`: a command-line runner with an `f64` host and console I/O.
