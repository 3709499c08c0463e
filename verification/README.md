# monkeyc-fmt

A syntax-preserving formatter for Garmin Monkey C, written in Verus. It
parses source with the Tree-sitter Monkey C grammar, lays the syntax tree out
as a Wadler-style document, renders it with the `pretty` crate, parses the
result again and returns it only if the new tree matches the old one.

## Layout

- `src/syntax.rs` — `SyntaxNode`, the tree the formatter reads (kinds, byte
  ranges, positions, children), its well-formedness and its atoms.
- `src/layout.rs` — the formatting rules as spec functions: the document each
  node is laid out as, and the tree shapes the rules rely on.
- `src/printer.rs` — the executable layout, proved equal to the rules.
- `src/laws.rs` — what layout keeps: every token, in order, with only
  whitespace between them.
- `src/check.rs` — validation (syntax errors, nesting depth) and the
  equivalence of the input and output trees, with their laws.
- `src/doc.rs` — the layout document and its model.
- `src/options.rs` — `Options`, `FormatError` and error messages.
- `src/cli.rs` — the command line's rules: which inputs go with which mode,
  what each formatted input calls for, the exit status, which files may be
  overwritten in place and whether a file is still the version that was read.
- `src/ts.rs` — the calls into `tree-sitter`: a tree's nodes are read in
  descendant order and decoded into a `SyntaxNode`, proved to be the tree the
  nodes describe.
- `src/render.rs` — the calls into `pretty`: a layout document becomes a
  `pretty` document whose contents are proved to be the ones the layout
  document stands for, and is rendered; what is written is the document's
  texts with only blanks and line feeds around them.
- `src/lib.rs` — `format`, which runs the whole pipeline; its contract ties
  each outcome to the tree read from Tree-sitter's parse of the source and
  the output to `pretty`'s rendering of that tree's layout.
- `app/main.rs` — the `monkeyc-fmt` command: arguments, files, standard streams.
