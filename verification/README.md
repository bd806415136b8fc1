# ts_borrow_checker

Explicit ownership and resource-lifetime checks for TypeScript and JavaScript,
verified with Verus.

Values opt in with `Owned<T>` / `Resource<T>` types or an `@owned` / `@resource`
JSDoc marker; the operations `move`, `borrow`, `borrowMut`, `endBorrow` and
`dispose` are checked line by line, and resources still available at the end are
reported as leaks.

## Layout

- `src/text.rs` — the character model: search, trimming, lines, UTF-8 widths.
- `src/scan.rs` — how a line is read: declarations, borrows, calls, places, blocks.
- `src/table.rs` — tables kept in key order, one entry per key.
- `src/borrows.rs` — borrow lifetimes (declaration, last use, explicit end).
- `src/analysis.rs` — the walk over the lines and the resulting report.
- `src/report.rs` — diagnostics and the report type.
- `src/html.rs` — the self-contained HTML report.
- `src/cli.rs` — argument reading, output lines, summary and exit status.
- `src/comments.rs` — why a trailing `//` comment changes nothing in the analysis.
- `src/blank_lines.rs` — why an inserted empty line only renumbers the diagnostics.
- `src/laws.rs` — properties of the analysis as a whole.
- `app/main.rs` — the `tsborrow` command: file discovery, reading, printing.

Each function of `src/` states its result in its contract over `Seq<char>`
models; `analyze_report` returns exactly `analysis(source)`, and `render` exactly
`report_html(...)`.
