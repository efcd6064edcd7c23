# bcp

A small bytecode-compiled language, verified with Verus.

- `src/lexer.rs`, `src/token.rs`: source text to tokens; `spec_tokenize`
  states the result; every successful run ends with exactly one `Eof`, and
  two sources joined by a line break lex as their two token lists joined.
- `src/ast.rs`, `src/parser.rs`: tokens to a syntax tree; `p_program` states
  the parse, including precedence and the error messages.
- `src/types.rs`, `src/type_checker.rs`, `src/scope.rs`: the type checker and
  the scopes it keeps (a map with unique keys).
- `src/instruction.rs`, `src/codegen.rs`: the syntax tree to bytecode;
  `program_code` states the code, and generated code is proved well formed,
  with every jump target inside the code.
- `src/value.rs`, `src/chunk.rs`, `src/vm.rs`: the stack machine; `step` and
  `run` state what it does, and `VM::interpret` is proved to follow them.
- `src/driver.rs`: the whole pipeline and the lines a front end shows.
- `app/main.rs`: the command line (`run`, `build`, `repl`): file and terminal
  input and output only.
