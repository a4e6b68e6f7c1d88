# arrus

A Discord Rich Presence daemon for Linux. It keeps Discord's list of
detectable games up to date, finds running games in `/proc`, and announces
them to the clients of its bridge (such as Vesktop); it also speaks the
Rich Presence RPC protocol to applications over a Unix socket (IPC) and over
WebSocket.

## Layout

- `src/` is the library, verified with Verus. Each public function states
  what it returns in its `ensures`; the `law_*` proof functions state what
  holds across calls (a written packet reads back, a rescan keeps a running
  game's session, the matching cache never changes what is found as long as
  no game id occurs twice in the database, the bridge
  gives back the last message of a socket, ...).
  - `activity`, `detector`, `database`: the running games, the process
    matcher with its cache, and the game database with its change notices.
  - `process`, `db`: the same detection over a richer game list, and the
    managed database (validation, comparison, backups, retries, schedule).
  - `server`, `transports`: the RPC server and the IPC and WebSocket
    protocols.
  - `bridge`, `config`, `logger`, `json`, `text`: the bridge's message
    cache, the settings, log prefixes, JSON values and string helpers.
  - `outside`: the calls into `tokio` and `std` that the library makes.
- `app/` is the program around it: reading the environment and `/proc`,
  sockets, HTTP, files, timers and JSON (de)serialisation.
- `tests/` runs the library on concrete values.

## Settings

All settings come from the environment: `ARRUS_DB_BASE_URL`,
`ARRUS_DB_ENDPOINT`, `ARRUS_DB_USER_AGENT`, `ARRUS_DB_TIMEOUT`,
`ARRUS_DB_MAX_RETRIES`, `ARRUS_DB_UPDATE_INTERVAL`, `ARRUS_BRIDGE_PORT`
(also read as `ARRPC_BRIDGE_PORT`), `ARRUS_LOG_LEVEL` and `ARRUS_DB_FOLDER`.
