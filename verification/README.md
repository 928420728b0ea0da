# scalpel

A codebase scanner for agents: it walks a directory, reads every code file,
and reports structured facts about each one (language, parse status, top-level
nodes, Vue template nodes, symbols, imports, exports, calls, diagnostics),
plus derived views: groups of identical files, groups of files that are the
same once normalised, and clone candidates.

The library under `src/` is written in Verus, and its functions carry
contracts that Verus proves:

- `text`: the `str` operations the analysis relies on (`find`, `trim`,
  `lines`, `split_whitespace`, joining), stated over `Seq<char>`.
- `normalize`: line normalisation, quote stripping, de-duplication, sorting,
  and SHA-256 hashing (through `sha2`).
- `language`: the languages with a syntax-tree analysis, and which files and
  directories a scan looks at.
- `syntax`: parsing with tree-sitter and reading the tree into a flat list of
  nodes in document order.
- `facts`: the facts of each node (symbols, imports, exports, calls) and the
  fingerprints of larger nodes for clone detection.
- `vue`: splitting Vue single-file components into blocks and reading their
  templates.
- `analysis`: the analysis of one file, for grammar-backed languages and for
  Vue files.
- `report`: file records, file facts, counts by status, groups of identical
  files and of files equal once normalised, clone candidates and the notes of a report.
- `markdown`: the Markdown report.

`app/main.rs` is the command line: argument parsing, walking the directory,
reading files, the floating-point scores of clone candidates, and JSON output.

```bash
scalpel --path . --format markdown
scalpel --path . --format json --min-lines 8 --min-chars 160 --extensions rs,ts --exclude coverage
```
