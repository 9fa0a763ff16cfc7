# TQ Launcher (verified rules)

A launcher for TardQuest and TardQuest Online. This crate holds the
launcher's rules, verified with Verus; `app/` holds the Tauri application
around them (commands, requests, files, processes, windows).

Library modules (`src/`):

- `text` — character-level string operations (trim, ASCII case, search).
- `version` — version keys (`version_key`) and the integer parsing they use.
- `sorting` — the order of keys and strings, and the stable newest-first sort.
- `table` — `KeyedTable`, a string-keyed map with distinct keys.
- `model` — catalog, builds, scan results, saved state.
- `layout` — platform name, directory layout, game-binary detection.
- `digest` — hex, published digests, SHA-256 of downloads, digest checks.
- `fetch` — what to request for a channel, how the answer becomes builds,
  and when the cached builds stand in for a failed fetch.
- `catalog` — edition listing, TQO channel and patch keys.
- `state` — saved state updates (install dir, installed patches).
- `scan` — what a scan of an install directory reports.
- `install` — the decisions of installing a build.

The bundled `catalog.json` that `app/catalog.rs` embeds is expected next to
`Cargo.toml`.
