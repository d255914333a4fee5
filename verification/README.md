# nsnfind

Looks up parts availability by NSN (National Stock Number) or NIIN (National Item
Identification Number) through a SOAP parts-availability service.

The crate is a Verus library with a thin command-line program around it.

- `src/` — the verified library:
  - `nsn.rs`: NSN/NIIN validation and normalisation; reading an input list
    (blank lines and `#` comments skipped, every other line kept, valid or not).
  - `soap/`: XML escaping, request bodies for `GetPartsAvailability` and
    `GetGovernmentData`, and the interpretation of decoded responses.
  - `output.rs`: the per-input JSON records and the 22-column CSV table.
  - `config.rs`: credentials and API settings, their validation, and where the
    config file is looked for.
  - `cli.rs` and `toml_doc.rs`: the command-line surface as data, dataset list
    parsing, and the document editor behind `config set`. The config file's text
    is parsed by the `toml` crate (a trusted call) and handed over as plain
    values; `toml_doc.rs` holds each section as a table of those values, kept in
    key order as `toml::Table` orders them. The values that stand for floats,
    date-times and arrays are their text, which has no one-for-one way back into
    a `toml::Value`, so the tables are not `toml::Table`s.
  - `client.rs`: per-entry outcomes, HTTP status handling, and restoring input
    order after concurrent queries.
  - `text.rs`: trimming, ASCII case mapping and decimal rendering on characters.
- `app/` — `main`, argument parsing (clap), files and environment (reading the
  config file), HTTP (reqwest),
  XML decoding (quick-xml), JSON encoding (serde_json) and logging (tracing).
- `tests/` — tests of the library.
