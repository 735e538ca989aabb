# langc

The front end of a compiler for a small indentation-structured language,
written in Verus: every function of the library carries a contract that
Verus proves.

A source file goes through three phases (`compiler::compile_source`, whose
result is stated phase by phase in `compiler::compiled_from`):

- `lexer`: lines are split into tokens; identifiers and literals are
  interned in the compiler context's string interner.
- `syntax`: the token lines become statements, blocks by indentation, and
  a syntax tree held in an arena (`ast`); expressions are parsed by a Pratt
  parser. The contracts say when parsing succeeds: an expression parses,
  up to where it ends, whenever it is made of prefix, binary and postfix
  operators, names (with or without a simple type annotation), literals,
  parentheses, calls, indexing and field access (`expr_end`); a program
  parses whenever each body is indented one level deeper than its
  statement and each line's own tokens parse (`program_parses`). On
  success they state the block structure at every depth (`program_tree`:
  each body holds, in order, the trees its statements build; an `if` has
  one branch per `elif` line and an `else` body when an `else` line
  follows), and tie an
  expression tree to its tokens (each node at the token it was built from,
  read back in order) for every expression without member access or type
  annotations; it respects operator precedence where there are no
  brackets.
- `semantic`: name resolution declares functions, parameters, variables
  and loop variables in the symbol table and checks that every name used is
  declared where it is used; type synthesis gives each expression a type.

Errors carry the span of the offending text and are formatted with the
source line under them (`error::spanned_error`).

Layout:

- `src/`: the verified library.
- `tests/`: tests run against the compiled library.
- `app/`: the command-line program, which reads the files named on the
  command line, compiles each one and prints the result or the error.
