# scanflow

A memory scanner: it finds values and byte signatures in the memory of a process or in raw physical
memory, narrows them down, reads them back and writes them, and follows chains of pointers to them.
The library is written in Verus, and its behaviour is stated in contracts that Verus proves.

The library neither reads memory nor prints. An operation that needs memory hands out one read or
write after the other and is handed what came of it, so that what it finds is stated and proved for
every memory.

## Layout

- `src/sig_scan.rs`, `src/value_scanner.rs`: patterns, and the scans for them and for values.
- `src/types.rs`, `src/bytes.rs`, `src/number.rs`, `src/text.rs`, `src/utf16.rs`: the types that a
  value can have, and how text and bytes are read and written as them.
- `src/memory.rs`, `src/session.rs`, `src/error.rs`: memory, and the session of scanning a target.
- `src/cli.rs`, `src/commands.rs`, `src/render.rs`, `src/repl.rs`, `src/start.rs`, `src/chain.rs`:
  the command line and the interactive mode, up to the lines that they print.
- `src/session_mgr.rs`, `src/server.rs`: many sessions by id, and the tools that a server offers on
  them.
- `app/`: the programs around the library. Started as `scanflow-mcp`, the program is the server;
  under any other name it is the command line.
- `tests/`: tests on concrete values.

The names of laws, which relate several operations, begin with `law_`.

## What is not proved

The calls into other crates are believed to do what the contracts of a few small functions say:
`memchr`, `hex`, `uuid`, `dashmap`, the chains and error texts of `memflow`, and a few functions of
the standard library. Each has a comment that says what is believed. Text of floating-point numbers
is read and written outside the library. This build has no disassembler: pointer maps, global
variables, code signatures and chains of pointers are decided on and shown, but finding them is left
to the program around the library.
