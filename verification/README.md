# trinity

A lexer, parser and interpreter for the Trinity language, with the logic of
its command line and package manager, written in Verus: the library's
functions are stated in contracts that Verus proves, and the few small
helpers without one are proved free of errors.

- `src/` — the verified library. Each module states its behaviour over
  mathematical models (`Seq`, spec functions, views) and proves the
  executable code against them. `src/run_laws.rs` holds the laws of
  interpreter runs (output only grows; more replies repeat a run; more
  fuel changes nothing but running out; scopes bind each name once).
- `tests/` — tests of the library on concrete programs and values.
- `app/` — the `trinity` command: files, the terminal, HTTP and the build
  of standalone programs. It runs a program by answering the
  interpreter's requests (reading a line, HTTP calls) and running it again
  with the replies so far.
