# nxc

nxc is a small expression language that lowers to the same semantic IR as a
supported subset of Nix, and emits either dialect from that IR. The library is
written in Verus: every function under `src/` is verified against its contract.

## Layout

- `src/syntax/` — the nxc lexer (`lexer.rs`, with an exact specification of
  the tokens it produces), the grammar of significant tokens as relations
  (`grammar.rs`), and the parser (`parser.rs`), whose results are proved to be
  derivations of that grammar; `cst.rs` builds the lossless rowan syntax
  tree of a source, proved to hold every byte of it.
- `src/ir/` — the semantic IR, its validation (`validate.rs`, an executable
  check equivalent to the `expr_valid` specification) and path literals.
- `src/string.rs` — double-quoted string decoding and the indentation rules of
  indented strings, both specified exactly.
- `src/emit/` — rendering of the IR as nxc or as parenthesized native Nix,
  with the exact text specified by `render`.
- `src/nix/` — native Nix: preflight checks of native source, the calls into
  rnix (`native.rs`), and the lowering of rnix's syntax walk (`import.rs`),
  specified by the relations of `lowering.rs`.
- `src/limits.rs` — the byte, token and depth budgets.
- Trusted code: the rnix calls and declarations in `src/nix/native.rs`, the
  rowan builder calls, declarations and names in `src/syntax/cst.rs`, and a
  few std wrappers in `src/text.rs`. Everything else is verified against
  their contracts.
- Floating point stays outside the verified library: the parser, the
  importer and validation refuse float literals with a diagnostic, and
  `app/` holds the floating-point literal handling.
- `app/` — the command-line front end, the typed rowan view of the syntax
  tree (rowan's `Language` trait), and floating-point literal handling.
- `tests/` — behavioral tests run against the compiled library.
