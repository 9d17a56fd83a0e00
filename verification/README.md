# wren

A virtual machine for the Wren language, written in Verus. Nearly every
function of the library has a contract; a few dozen small ones have none. The
contracts are proved, all but those of the few functions marked
`external_body`: these call the standard library, for the room a vector has or
for lossy text, and what their contracts say is believed. The comment above
each says what that is.

- `src/value.rs`, `src/handle.rs`, `src/number.rs`: values, handles and numbers.
  A number is held by the bits of its double.
- `src/object.rs`, `src/heap/`, `src/table.rs`, `src/fields.rs`, `src/bitmap.rs`:
  objects, where they live, and the collector.
- `src/lexer.rs`, `src/compiler/`: source to tokens to code. What each construct
  compiles to is stated in `src/compiler/grammar.rs`.
- `src/bytecode/`: the instructions, their listing and their fusion.
- `src/vm/`: the machine: calls, classes, fibers, upvalues, modules and one
  instruction at a time.
- `src/corelib/`: the methods that every program has. A method that needs
  something from outside says so in its reply.
- `src/uheap.rs`, `src/sha256.rs`, `src/frozen.rs`: a small allocator, a digest,
  and classes that were built ahead of time.
- `app/`: the loop around the machine: floating point, the time, and modules
  from elsewhere.
- `tests/`: the library on concrete values, and whole programs.
