# mhw_radar

A hunting companion for *Monster Hunter: World*: an engine that reads the
game's memory and shows the target monster in an overlay, keeps a hunting
log by quest, and serves a local HTTP API to a settings panel; the panel
also downloads and installs updates through a stand-alone updater.

The decisions of all three programs form a library verified with Verus:

- `src/log.rs` — quest states, log entries, the round-based hunting log and
  the connection log with their limits, the saved text of a round, and the
  handles the engine's threads share (a lock whose predicate is the limits).
- `src/stats.rs` — quest outcome statistics and move counts from the log.
- `src/session.rs` — the reader's connection lifecycle, quest lifecycle and
  move-change detection, as state machines.
- `src/target.rs` — which monster is shown; which monsters are large.
- `src/ipc.rs` — HTTP request parsing, routing, limits and response heads.
- `src/update.rs` — link, download-URL, checksum and package-location checks.
- `src/updater.rs` — the updater's command line, archive-entry checks and
  log text.
- `src/clock.rs`, `src/text.rs`, `src/reader.rs`, `src/game_data.rs`,
  `src/status.rs` — time stamps, text primitives, quest time format, name
  tables, the status summary.

`app/` holds the programs around the library: the engine (`main.rs`, with
the reader loop, memory reads, the HTTP server and the overlay), the panel
(`panel.rs`) and the updater (`updater.rs`). The game data tables
(`app/data/*.json`) and the logo (`app/resources/title-zh-en.png`) are
embedded at build time.
