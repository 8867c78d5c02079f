# oxtub

An educational relational database written in Verus: the
query pipeline and the buffer pool's bookkeeping are proved against their
contracts.

## Layout

- `src/` — the verified library.
  - `buffer/` — the LRU-K replacer, the buffer pool's frame bookkeeping
    (`BufferPoolState`: which frame holds which page, pins, dirty flags,
    eviction) and pages.
  - `catalog/` — tables, indexes, schemas and columns.
  - `storage/` — table heaps, tuples and indexes, held in memory.
  - `query/parser.rs` — SQL text to a statement: sqlparser reads the text
    (`query/syntax_tree.rs` copies its tree into the library's
    `RawStatement`), and verified rules turn the tree into a statement,
    refusing what the engine does not support.
  - `query/binder`, `query/planner`, `query/optimizer`, `query/executor` —
    binding names, planning, rewriting plans and running them.
  - `query/engine.rs`, `database.rs` — statements end to end.
  - `query/pipeline.rs`, `query/accepted.rs`, `query/bound.rs` — proofs that
    every stage accepts what the stage before it produces.
  - `repl.rs` — the shell's decisions: what a line of input asks for.
- `app/` — the program around the library: printable errors, disk files,
  locks, and the interactive loop.
- `tests/` — tests of the library.
