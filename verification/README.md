# slatron

The decision-making core of Slatron, a TV scheduling and digital-signage
system (a server that holds schedules, content, scripts and AI DJs, and
playout nodes that follow the schedule with mpv), written in Verus: every
function in `src/` carries a contract that Verus proves.

- `src/` — the verified library: schedule layering and collapse (`schedule`,
  `blocks`, `context`, `node_schedule`), playout decisions of a node
  (`node_playback`, `node_media`, `node_session`, `timing`), the DJ and
  speech pipelines (`dj`, `llm`, `tts`), bumpers and uploads (`bumper`,
  `catalog`, `upkeep`), security rules (`security`, `rate_limit`, `auth`),
  settings (`node_config`, `server_config`), XML reading (`xml`) and string
  helpers (`text`). Calls into outside crates (chrono, rhai, url, sha2,
  serde_json, quick-xml, bcrypt) go through small trusted wrappers whose
  contracts are stated in their doc comments.
- `tests/` — tests of the library on concrete values.
- `app/` — the playout node program: configuration file, WebSocket link,
  heartbeat, mpv control, Rhai script hosting, spot reels and web captures.
  It does the I/O and asks the library for every decision.
