# diamondback

A compiler for a small expression language (numbers, booleans, `let`,
`set!`, `if`, `block`, `loop`/`break`, arithmetic and comparisons) to
x86-64 assembly, verified with Verus, together with the runtime's value
encoding. The compiler also handles programs with function definitions
and calls, but the text syntax has no form for them: such a program is
only built in code, as an `Expr::Program` value.

- `src/` is the verified library.
  - `sexpr`: reading S-expressions (through the `sexp` crate) into plain values.
  - `parser`: S-expressions to the abstract syntax of `types`.
  - `codegen`: the model of code generation, as spec functions.
  - `compiler`: the compiler, proved to emit exactly what the model says,
    and `check_expr`, which tells whether an expression compiles and the
    first error otherwise.
  - `nasm`: writing instructions out as assembly text.
  - `labels`, `targets`, `slots`: what compiled code guarantees (each label
    defined once, every jump landing on a defined label, writes confined to
    the expression's own stack slots).
  - `runtime`: the run-time value encoding, the input argument and the
    error messages.
  - `text`, `types`: decimal text and the shared data types.
- `tests/` runs the library on concrete programs.
- `app/` is the command-line compiler and the runtime shell around the
  library.
