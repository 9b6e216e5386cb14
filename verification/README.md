# matrix_lang

The logic of the Matrix language toolchain and its editor, written in Verus
and proved against its contracts.

- `src/text.rs`, `src/lexer.rs`, `src/ast.rs`, `src/parser.rs`: the language's
  tokens, syntax tree and parser; `parse_source` is stated as a function of the
  source text.
- `src/ir/`: the intermediate representation, its generator from programs,
  its printer, and the dead-code and common-subexpression passes.
- `src/quantum/`: gates, layered circuits and their optimisation passes, the
  algorithm circuits (Grover, Bernstein–Vazirani, QFT, …), the renderings of
  a circuit as text, HTML and SVG, the counts and connectivity of a circuit,
  and the circuit designer's commands (`H 0`, `CNOT 0 1`, ...).
- `src/engine/`: the editor's state: scripts in the scripting panel, the
  project browser's file tree and its order, the game view's playback, the
  search and replace over scripts, and the editor's modes.
- `src/eval.rs`, `src/jit.rs`, `src/gui.rs`: the errors and statistics that the
  interpreter and the compiler report, and the editor's window stubs.

`app/` is the command-line program around the library: argument handling,
the REPL, files, random circuits, and the passes that work on doubles.
`tests/` runs the library on concrete inputs.
