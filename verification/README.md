# jsi front end, verified

A JavaScript front end written in Verus: a lexer and a recursive-descent
parser that turn source text into an abstract syntax tree, with text
utilities for an interpreter, each function proved against its contract.

- `src/ast.rs`: the lexer (`AST::scan`, `AST::read`) and the parser
  (`AST::parse`). The lexer's contract says where the next token starts
  (past white space, line breaks and comments, see `next_start`), that it
  is the longest word, number, string or punctuator there, which token its
  text is, that the end of the text gives `EOF`, and exactly when a line
  break inserts a semicolon (`line_break_before`, `asks_semicolon`); the
  parser's contract says that it ends, where it stops, that the binary,
  conditional and assignment operators of every expression statement nest
  as their precedence and associativity ask, and that every simple program
  (`program_at`: words, numbers, strings, prefix `++`/`--`, binary
  operators and `=`) parses, one expression statement per statement of the text
  (`program_form`).
- `src/ast_node.rs`, `src/ast_token.rs`: the tree and the tokens.
- `src/ast_utils.rs`: escape sequences, hexadecimal digits, characters.
- `src/builtins/`: array index keys (`"0"`, `"1"`, ...), the index
  arithmetic of `slice`, `splice`, `fill`, `includes` and `indexOf`, and
  the order of `sort`; integers in other bases; the steps of a promise
  reaction.
- `src/bytecode.rs`, `src/value.rs`, `src/error.rs`: small shared types.
- `app/lib.rs`: the `JSI` entry point, and the floating-point value of a
  number literal.
- `tests/`: tests of the parser and of every module.
