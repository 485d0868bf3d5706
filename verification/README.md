# rewriting

A small rewriting language: a parser from source text to expressions and
statements, an arena that holds expressions as reference-counted nodes, an
evaluator over that arena, and statement evaluation with modules and imports.

- `src/` is the library, verified with Verus.
  - `text`, `strmap`: characters, strings and a map keyed by strings.
  - `lexer`, `parse`, `shunt`, `grammar`: the parser.  Each parser is a spec
    function on the characters of the input (`sp_*`), and the executable
    parser is proved to give exactly that result.
  - `syntax`: expressions and statements, and their mathematical values.
  - `arena`, `eval`: the expression arena, substitution and evaluation.
  - `stmt_eval`: statement evaluation.  The files that an import reads are
    passed in as a map from file name to contents.
  - `plat`: the kinds of platform edges.
- `app/` is the program: a read-eval-print loop for expressions, and the
  floating-point physics of platforms and the player, which use `nalgebra`,
  and drawing with `sdl2`.
- `tests/` runs the library on concrete inputs.
