# brv

Abbreviation expansion for interactive shells, as a library verified with Verus.

- `src/text.rs` — character-level helpers: whitespace, trimming, searching,
  line and word splitting, UTF-8 byte lengths, decimal rendering.
- `src/matcher.rs` — abbreviation definitions and the keyword matcher
  (regular, global and contextual abbreviations).
- `src/context.rs` — regex context conditions of contextual abbreviations.
- `src/placeholder.rs` — `{{name}}` placeholders and cursor placement.
- `src/expand.rs` — keyword extraction and expansion.
- `src/output.rs` — the answers and their line-based wire form.
- `src/import.rs` — importing zsh, fish and git aliases; exporting as
  `kort add` commands.
- `src/serve.rs` — the request/response protocol of the expansion server and
  the steps of its freshness check.
- `app/` — the configuration file, the import/export commands and the
  server loop, around the library.
