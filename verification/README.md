# mempal (verified core)

The logic of a project memory tool for coding agents, written in Verus:

- `src/text.rs` – Unicode whitespace, trimming, line splitting and joining over `Seq<char>`.
- `src/json.rs` – the JSON value the library reads, and the one `serde_json` parse behind it.
- `src/detect.rs` – telling a JSONL transcript, a ChatGPT export and plain text apart.
- `src/normalize.rs` – turning each format into plain transcript text, with the laws that tie
  detection to normalization and bound the depth-first walk of a ChatGPT mapping.
- `src/types.rs`, `src/anchor.rs` – memory records and their bootstrap defaults.
- `src/ingest.rs` – what the ingest pipeline decides about a file: preparation, chunking,
  skipped directories and counts.
- `src/embed.rs` – choosing the embedding backend from the configuration.

`app/` holds file reading and directory walking for ingest, and serializable copies of the
records.
