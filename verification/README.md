# epitech_style_checker

A checker for the Epitech C coding style, written in Verus. Each rule family
(`C-A`, `C-C`, `C-F`, `C-G`, `C-H`, `C-L`, `C-O`, `C-V`, `C-Z`) lives in
`src/rules/c_<letter>.rs`; every check takes a file name and its text and
returns its diagnostics, and its contract says exactly which diagnostics those
are, as a spec function over the file's bytes, its lines and its syntax tree.

- `src/diagnostic.rs`: diagnostics, their mathematical view, and the lemmas
  that reason about lists of them.
- `src/text.rs`: lines, white space, prefixes and substrings on UTF-8 bytes.
- `src/syntax.rs`: the tree-sitter C syntax tree, held as its nodes in
  pre-order, and the queries the rules make on it.
- `src/pattern.rs`, `src/stdlib.rs`: the calls into the `regex` crate and the
  standard library that the rules make, with the contracts they are trusted
  to meet.
- `src/rules/mod.rs`: the check that runs every family on one file, and the
  law that every diagnostic names its file and a line numbered from 1 up to
  the number of the file's newline-separated pieces.
- `app/main.rs`: the command-line program that walks a directory, reads the
  files and prints the diagnostics.
