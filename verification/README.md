# lazysom

Tools for SOM, the Simple Object Machine dialect of Smalltalk, written in
Verus: the library's functions state their behaviour in contracts that Verus
proves.

Library (`src/`):

- `lexer`, `grammar`, `parser`: SOM source text to tokens and to the syntax
  tree of `ast`; `grammar` states the language as spec functions and the
  parser is proved to follow it.
- `compiler`, `bytecode`: methods and classes to bytecode, and an image of
  all the classes a set of definitions can load.
- `universe`: class definitions seen together (fields inherited along the
  superclass chain, the methods the loader adds, their order).
- `object`, `runtime`, `loader`, `reflect`, `numbers`, `collections`: the
  state of a running program (heap, classes, methods, activations, globals),
  the interpreter's lookups over it, class assembly, and the primitives that
  compute on it.
- `eval`, `program`, `integrity`: the interpreter itself (expressions,
  methods, blocks, message sends and the primitives that run code), loading
  classes from their definitions and starting a program, and a test of the
  state's well-formedness for the steps that cannot promise it.
- `serialize`, `roundtrip`: values to and from a flat serialized form, with
  the proof that a value comes back as it was.
- `vm_runner`, `helpers`: the state of a background evaluation as a
  debugger front end sees it.

`app/` is the command line around the library: it reads the `.som` files
of a class path, runs a program and prints what it printed (and, with
`--result-format json` or `msgpack`, the program's answer serialized), or
compiles the classes and writes an image with `bincode`.

A message that no class understands ends the run with an error naming the
selector; a class that declares a primitive nobody implements does not
load; `Store::dispatch_limited` sends a message with a chosen nesting limit,
past which the run stops with a stack overflow error.
