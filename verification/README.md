# sapphire-workspace

A library for workspaces of plain text files: it finds a workspace, indexes its
files for full-text and vector search, keeps the workspace in step with a git
remote, and knows the devices that share it. The library is written in Verus;
its contracts are stated over mathematical models and proved.

- `src/text.rs`, `number.rs`, `paths.rs`, `seqs.rs`, `places.rs`, `order.rs`,
  `double.rs`, `json.rs`, `ids.rs`: text, numbers, paths, sequences, positions
  by number, sorting, floating-point numbers as bit patterns, JSON, identifiers
  and times.
- `src/retrieve/`: chunking, the stores, their query patterns, embedding and
  grouping of results.
- `src/sync/`: the device registry and the git synchronisation cycle.
- `src/workspace/`: workspaces, settings, identity, the indexing run.
- `src/cli/`: the decisions of the command-line program and what it says.
- `tests/`: tests of the compiled library.
- `app/`: the command-line program: files, SQLite, LanceDB, git, HTTP, the
  search server.

What the library takes from other crates (`serde_json`, `toml`, `uuid`,
`chrono`, `md-5`) stands behind small functions marked
`#[verifier::external_body]`; the comment above each says what is believed of
the function that it calls.
