# agent_editor

The core of agent-editor, a local-first Markdown knowledge base, written in
Verus: the library is verified, and its public functions carry contracts
that state what they return.

## Layout

- `src/` — the verified library.
  - `text`, `num`, `keyed`: text operations with `std` semantics (`lines`,
    `trim`, `split`, unsigned parsing) and a small string-keyed map.
  - `paths`: the `std::path` operations the library relies on.
  - `graph`: wiki-link extraction (`[[slug|alias]]`, code fences and inline code
    ignored).
  - `scan`: file slugs, scan counters and the dedupe rule of a rescan.
  - `docs`: version hashes `{doc_id}:{blake3(body)}` and the update plan.
  - `ai`: context windows, secret redaction, anchors, provider resolution and
    gating, OpenRouter answers.
  - `plugins`: the capability check of plugin calls and the registry of
    running plugin processes with its restart policy.
  - `export`, `import`, `archive`: export rows and file names, import planning
    and counting, and the assembly of documents read from an archive.
  - `rpc`: the methods and answer envelope of the JSON-RPC server.
- `tests/` — tests of the library on concrete values.
- `app/` — the headless JSON-RPC server around the library: SQLite, files,
  child processes, HTTP and the OS keychain.

Laws that relate several operations are public proof functions named `law_*`
(for example `plugins::law_shutdown_undoes_spawn`, `docs::law_update_dedupes`,
`archive::law_attachments_conserved`).
