# floral_sync_server

The verified core of a lightweight, single-user sync server for Floral
Notepaper: clients push the latest state of their notes, the server keeps the
newest state of each note under a monotonically increasing revision, and a
small admin web UI manages settings, backups and downloads.

## Layout

- `src/` — the library, verified with Verus:
  - `protocol.rs` — the sync data model (note states, revisions, responses).
  - `sync_store.rs` — last-writer-wins push planning, restore re-stamping and
    tombstones, with the laws they keep.
  - `sync_api.rs` — bearer authorization, query defaults and the long-poll.
  - `config.rs` — configuration normalization (including legacy fields),
    patches, what to write to the configuration file (the application
    writes it), and the runtime split between live and restart-required
    settings.
  - `auth.rs`, `session.rs` — admin password hashing (Argon2) and signed
    session cookies (HMAC-SHA256, URL-safe Base64).
  - `admin_api.rs`, `admin_store.rs` — the admin API's decisions: origin
    checks, cookies, login flows, note-list parameters, Markdown rendering,
    ZIP archives of notes, backup names and listings, log tails.
  - `admin_web.rs` — the headers of the admin UI's embedded files.
  - `text.rs`, `paths.rs`, `time.rs` — verified string helpers, path handling
    and instants (formatted and read in RFC 3339).
- `tests/` — tests of the library.
- `app/` — the program around the library: command line, TOML file, SQLite
  database, HTTP servers and listeners.
