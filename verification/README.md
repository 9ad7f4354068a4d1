# Quince

Quince is a small, dynamically typed scripting language. This crate holds its front end, its
interpreter and the answers its language server gives, each stated as a mathematical function
and proved, with Verus, to compute it.

- `src/syntax` turns a text into tokens and a tree, and refuses what no run of it could do.
- `src/runtime` is the object model: values, objects, classes, scopes and the collected heap.
- `src/interp` evaluates a tree. Every step is a function from a state to a state.
- `src/float.rs` and `src/big.rs` are the language's floats, on their bits.
- `src/lsp` is what an editor asks of a document.
- `app` is the program around it: the command line, the prompt and the server's messages. A
  program's files and its input are read before it runs; what it prints and writes is passed on
  behind each of its statements.

A module ends, where it has any, in its laws: public proof functions whose names begin with
`law_`.
