# rubyfast

A Ruby performance linter: it detects 19 common performance anti-patterns in
Ruby code, can rewrite the 8 safe ones in place (`--fix`), honours inline
`# rubyfast:disable ...` directives and a `.rubyfast.yml` / `.fasterer.yml`
configuration.

## Layout

- `src/` — the library, verified with Verus:
  - `prism_tree` — parsing a source with `ruby-prism` and converting the
    tree it builds into the library's own (trusted conversion, named by
    `prism_tree`); `ast` — the syntax tree the analysis runs on; `ast_visitor` — its
    traversal order; `ast_helpers` — predicates on calls, blocks and method
    definitions, and byte-offset to line conversion.
  - `scanner/` — one module per family of checks (method calls, method
    definitions, `rescue` clauses, `for` loops), each specified by a spec
    function of the node it inspects.
  - `analyzer` — the walk over a tree and the filtering by configuration and
    inline directives; `comment_directives` — parsing of the directives and
    the set of disabled lines they produce.
  - `fix` — replacements and their application; `offense`, `config`,
    `file_traverser`, `output`, `cli` — the data of a run and its report.
  - `text` — string and byte-string helpers.
- `tests/` — tests of the library on parsed Ruby sources and on plain data.
- `app/` — the command-line program: argument parsing, file discovery,
  reading and writing files, YAML parsing, parallelism and printing.

Parsing is done with `ruby-prism`; the syntax check after a fix with
`lib-ruby-parser`.
