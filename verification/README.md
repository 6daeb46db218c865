# toolbelt_a

A small toolbelt, verified with Verus.

- `src/comp`: Python-style list comprehensions,
  `mapping for pattern in sequence (if condition)* (for ...)*`.
  `token` lexes Rust source text (through `proc_macro2`'s own lexer) and
  writes tokens back; `syntax` asks `syn` whether a text is an expression or
  a pattern; `grammar` splits tokens into a comprehension, each expression as
  long as `syn` lets it be, proved to find the one split whenever there is
  one; `expand` checks each pattern with `syn` and writes the expansion, a
  lazy iterator chain, as Rust source text; `eval` evaluates clauses eagerly
  over vectors.
- `src/sync`: the decisions of background workers and a thread pool: what a
  worker thread does with what it receives, the errors a handle reports, the
  names of its threads, and the order in which a handle shuts down.
- `src/error`: the crate's error type.
- `app/`: the threads and channels (`Worker`, `ResultWorker`, `ThreadPool`)
  and the entry point of the `comp!` procedural macro, which expands a
  `proc_macro2::TokenStream`.
