# shim-interface-core

Catalogs of the SQL surface that plugin shims expose: scalar, aggregate, table
and window functions, column types, operators, casts, spatial indexes,
preprocessor patterns and system tables.

`src/` is the library. It is written in Verus: every function states what it
returns in `requires` and `ensures`, and the statements are proved. It does no
input or output: it works on plain values, on the JSON values of `serde_json` and
on the syntax trees of `syn`.

| module | what it does |
| --- | --- |
| `catalog`, `load` | entity families, and the rows of SQLite and TOML catalogs as entities |
| `diff`, `report`, `options` | comparing two catalogs, rating the difference, writing the report |
| `hashes`, `json`, `digest` | signature and implementation hashes over canonical JSON |
| `registry`, `extract` | rows for what a shim registers and publishes |
| `stamp`, `edges` | what a source tree adds: hashes, interfaces, dependencies |
| `walker`, `syntax`, `sources` | call edges from Rust source text |
| `owner`, `paths` | owner files of interfaces |
| `version`, `migrations` | schema versions |
| `order`, `text` | sorting, strings |

Calls into `serde_json`, `blake3` and `syn`, and into a few functions of `std`,
stand behind small functions marked `#[verifier::external_body]` or behind
`assume_specification`; the comment above each says what is taken on trust.

`app/` is the program around it: `spatial-catalog-diff`, and the code that opens
databases, walks directories and writes rows. A shim driver hands its shim to
`app/shim.rs` as a `LoadedShim`, and the statements of its schema to
`app/store.rs` as a `SchemaSql`.

`tests/` runs the library with the real crates.
