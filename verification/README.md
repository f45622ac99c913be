# runwayclock

RunwayClock answers one question: how long can I continue living without
earning additional money? It reads bank statement CSVs into a local ledger,
takes the future facts the user confirms (scholarships, known expenses, a
reserve), and simulates the balance day by day until it reaches the reserve.

The library under `src/` is written in Verus and verified:

- `calendar`, `money`, `text`, `order`: dates as day numbers, currency codes
  and minor-unit amounts, character and ordering helpers.
- `forecast`, `runway_laws`: validation of a runway input, the daily
  simulation with exact rational spending, the explained result, and the
  laws the simulation keeps.
- `profile`, `amount`, `headers`, `statement`, `formats`, `decode`, `rows`,
  `raw_rows`, `import`: import profiles, amount and date parsing, header and
  format suggestions, decoding, row parsing, reconciliation keys, raw row
  archives, statement preview and preparation, import counting.
- `ledger`, `rule_rows`: what the ledger database decides around its queries:
  stored rows, schema versions, the historical spending summary, how a runway
  input is assembled, and how forecast rules are stored and read back.
- `entry`, `presentation`, `messages`: checks on facts typed by hand, what
  the command line and desktop window show, and error messages.

`app/` is the command-line program: argument handling, the SQLite database,
file reading and writing, JSON and TOML documents, and the desktop window's
commands. `tests/` exercises the library on concrete values.
