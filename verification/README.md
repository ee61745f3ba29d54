# spread_cli

The logic of a command-line tool that turns spreadsheets (xlsx, xlsm, xls, xlsb, ods)
and CSV/TSV files into JSON, JSON Lines or plain text, written in Verus with its
behaviour stated in contracts and proved.

- `src/args.rs` — command-line arguments to read options: `--keys` column overrides,
  `--colstyle`, 1-based and 0-based sheet and row positions, date-time modes.
- `src/key_pattern.rs` — placeholder `--keys` patterns (`file_[n]:files[]`,
  `sales_{region}:sales.{region}`, `sales_[year]:sales[].{year}{amount}`) expanded
  against real column keys, and `--keys '-identifier'` column suppression.
- `src/filter_pattern.rs` — the SQL-like `--filter` language: tokens, grammar, errors.
- `src/output.rs` — error messages, the source-path test, the indented row array,
  the output form for each flag combination, the fields of the `--json` result.
- `src/text.rs` — character classes, case folding and decimal integers.
- `src/filter_laws.rs`, `src/key_laws.rs` — properties proved of every input.
- `app/` — the executable: command-line parsing, file system, spreadsheet reading
  and printing, around the library.
