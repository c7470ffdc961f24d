# infra-types

Cloud-agnostic infrastructure configuration types (stack, deployment, SQLite with
S3 backups, network, services, observability) and the content tooling around them
(markdown challenges with YAML frontmatter, drift detection against a SQLite cache,
SQL migration rendering), written in Verus with their behaviour stated in contracts
and proved.

Layout:

- `src/` — the verified library. Each public function states in `ensures` what it
  returns; laws that span several functions stand as public proof functions
  (`lemma_*`). Calls into `sha2`, `flate2`, `serde_json` and the standard library's
  case mapping stand behind a few trusted wrappers, each documented where it is
  declared.
- `tests/` — tests of the library on concrete values.
- `app/` — the command-line and web plumbing: file, database, process and AWS I/O,
  and serde/clap/utoipa copies of the library's types.
