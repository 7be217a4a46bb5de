# csv-verify

Merkle trees over the rows of CSV files, verified with Verus.

- `src/` is the verified library: digests of rows, files of hashed rows, Merkle
  trees with their leaf ranges, the HTML pages and the layout of drawings.
- `tests/` runs the library on concrete values.
- `app/` holds the command line programs `csv-verify`, `csv-hash`,
  `csv-visualise-html` and `csv-visualise-png`; the name under which the
  executable is called decides which one runs. Drawing reads the font
  `assets/DejaVuSans.ttf`, beside `Cargo.toml`.

| Module | What it holds |
| --- | --- |
| `digest` | SHA-256 of messages and of pairs of digests |
| `hex_text` | digests as hexadecimal text |
| `text` | white space and decimal numbers |
| `csv_text` | the canonical line of a record |
| `csv_rows` | reading and writing rows |
| `sha_csv` | hashing rows, and reading stored digests |
| `paths` | where hashed rows are stored |
| `errors` | errors and their messages |
| `tree`, `tree_laws` | Merkle trees, and what holds of all of them |
| `html`, `png`, `report` | pages, drawings and reports |
