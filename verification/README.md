# load1c

A verified parser for bank exchange files in the `1CClientBankExchange`
format, with its configuration handling. The library is written in Verus:
its functions carry contracts that Verus proves. The exceptions are the small
`#[verifier::external_body]` wrappers around calls into `toml`,
`encoding_rs` and a few std functions: their contracts state what those
crates document and are trusted, not proved.

Layout:

- `src/parser/` — encoding detection and decoding (`encoding`), the section
  state machine (`state`), the header and counters (`models`), the line-by-line
  parser over an in-memory input (`stream`), and properties of whole parses
  (`laws`).
- `src/config/` — configuration types, command-line overrides and validation
  (`models`, `cli`), TOML handling: parsing, `[includes]`, table merging
  (`loader`), and the walk that combines a file with the files it includes,
  depth first, plus the left-to-right merge of several files (`includes`).
- `src/file_discovery.rs` — which source of files is used, extension matching.
- `src/stats.rs` — number formatting for reports.
- `src/text.rs` — character-level helpers (trimming, comparing, decimal digits).
- `app/` — the command-line program: argument parsing (clap), reading files
  and configuration from disk (the files the include walk asks for),
  walking directories, printing.
- `tests/` — tests of the library.
