# badness

The completion core of a LaTeX language server, written in Rust and verified with
Verus.

- `src/text.rs`, `src/names.rs`: strings as sequences of characters, and maps from
  names to values.
- `src/syntax.rs`: the syntax tree as elements in document order.
- `src/semantic/`: signatures of commands and environments, the tables that ship with
  the program, and what is known of a document.
- `src/completion/`: what a cursor position asks for, and the candidates that answer.
- `src/ffi.rs`: a flat snapshot of the tree with UTF-16 ranges, and completion on it.
- `src/laws/`: what holds across these functions.
- `src/outside.rs`: the calls into other crates and the contracts that are relied on.
- `app/`: reading the tables, and the C interface with its pointers.
