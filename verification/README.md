# lavendeux_parser

The front end and value model of the Lavendeux expression language, written in
Verus: every function in `src/` carries a contract that the verifier proves.

- `lexer`: the scanner that turns source text into tokens (`Lexer`,
  `Tokenizer`), the token stack with reversible transactions that the parser
  reads from, and the categories of rules used in error messages.
- `literals`: the values of integer, radix, decimal and string literals.
- `parser`: the syntax-tree nodes, the parsers of literal terms and prefix
  operators, and the Pratt folding of operators by their binding powers.
- `value`: primitives, numbers with currency symbols and precision, arrays,
  objects, ranges and functions; their arithmetic, comparisons, casts,
  indexing, text forms, regular-expression matching and byte encodings.
- `compiler`: the bytecode buffer with its debug profile, function
  documentation read from doc comments, and the label names of the
  disassembler.
- `cli`: the options of the command-line compiler.

`app/` holds the command-line program: it reads files and arguments and
prints the lexer's tokens. `tests/` exercises the library on concrete inputs.
