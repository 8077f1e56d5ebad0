# xiyi_compiler

A front end for the Xiyi model language, verified with Verus: lexer, parser, type checker,
lowering to a high-level IR (HIR) and to a mid-level IR (MIR), each with contracts that
Verus proves.

## Layout

- `src/token.rs`, `src/lexer.rs`: tokens and the lexer, specified by a scanning function
  on characters (`lex`). A string literal's text is unescaped, except right after `bytes`,
  where the parser decodes the raw text itself.
- `src/skipping_lexer.rs`: a lexer that passes over characters where no token starts and
  keeps every token's text as written (`lex_skipping`).
- `src/parser.rs`: the recursive-descent parser. For types, struct and enum bodies,
  parameters, privacy tags, `where` clauses and attribute arguments, what a successful
  parse returns is tied to the tokens it read. Success, and the exact result, are owed only
  for particular shapes: primitive and named types and `Name<primitive, ...>`, `self`
  parameters followed by a typed one, braced `use` lists with aliases, `implement X for Y
  {}`, calls with no or one integer argument, integer and name operands with one operator,
  `let` and assignments of literals, `while N { ... }`, and programs of functions whose
  bodies hold such statements (`stmts_at` gives each statement). A few errors are stated
  with their messages (a `&` parameter other than `self`, malformed patterns, a `(` after
  an `implement` header, integer literals out of range). A failed privacy tag gives back
  the tokens it read.
- `src/show.rs`: the `{:?}` text of types, used in the checker's messages.
- `src/rational.rs`: rational budgets written as text, with their order.
- `src/sema.rs`: the type checker: symbol tables, scopes, privacy labels, generic
  unification (sound: a successful match makes the expected type, once substituted, agree
  with the actual one), tensor shape rules and the model rules. Programs of simple functions
  are accepted; operations, `if` and `return` over literals and plain variables are typed
  exactly; a match binds a payload by the position of its type parameter; a `let` whose
  literal does not fit its annotation (in a function, a block, an implement block or a
  model), and a model without `forward`, are refused with their messages.
- `src/hir.rs`, `src/hir_builder.rs`: the HIR and the lowering from the syntax tree
  (`lowered`, `built_program`).
- `src/mir.rs`, `src/mir_builder.rs`: the MIR and the lowering from the HIR; the blocks of
  `while`, `loop`, `break` and `return` are stated, and a body of `let`s lowers to one
  assignment per `let` in the first block.
- `src/calc.rs`, `src/elaborate.rs`, `src/simplify.rs`: passes that keep a program as it is.
- `src/assemble.rs`: joining the standard library's items with a program's, and the order
  in which the library's files are read.
- `src/properties.rs`: laws of the type relations, of privacy labels and of budgets.
- `app/main.rs`: the command-line driver (files, arguments, printing).
- `tests/`: tests of the library through its public functions.
