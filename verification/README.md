# asa

An assembler, interpreter and debugger for Sublang, a small assembly language
for the one-instruction machine Subleq (`b -= a`, jump to `c` when the result
is at most zero).

The library under `src/` is verified with Verus: every public function states
what it returns in terms of specification functions, and the proofs check the
code against them.

- `lexer`: source text to tokens, a context machine read character by
  character (`tokenise`, `splice_include` for `#include` lines).
- `parser`: the passes from tokens to numbers: literals, assignments, braced
  label definitions, macros (`parser::macros`), strings, multiplications,
  dereferences, instruction order, label addresses (`parser::parse`).
- `codegen`, `assembler`: tokens to a memory image.
- `files`: memory images as bytes and as text, output file naming.
- `interpreter`, `runtimes`: executing one instruction at a time, the
  debugger's session state and its undo.
- `feedback`, `args`, `utils`, `sanitiser`, `scopes`, `text`, `tokens`,
  `error`: supporting pieces.

`app/` is the command line program: argument parsing, reading files and
includes, printing, the terminal loop of the interpreter and the debugger.
