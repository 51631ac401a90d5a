# orchestra

A small process orchestrator. The **maestro** keeps symphonies (named
groups of notes, each note a process to run on some host) and the
principals (hosts) that report to it; **principals** run the notes assigned
to them and send heartbeats with their states; **watchers** stream changes to
subscribers filtered by field selectors; the **auditorium** keeps the
symphonies a user tracks and shows them as the maestro runs them.

Layout:

- `src/` — the verified library (Verus):
  - `keyed.rs`: association lists with unique keys, read as maps, with lemmas;
  - `watcher.rs`, `watcher/field_selector.rs`: field selectors (built or
    parsed from queries such as `host=me,name!=idle`), matching, and
    watchers over tokio channels;
  - `maestro/models.rs`: notes, symphonies, principals and the store;
  - `maestro/control.rs`: what the maestro does on creating or stopping a
    symphony and on a heartbeat, as changes to the store and events;
  - `principal/`: the principal's record of its notes and its decisions
    (start, kill, restart, synchronize, heartbeat);
  - `auditorium/`: tracked symphonies and their matching against the maestro.
- `app/` — the servers and the agent: HTTP, server-sent events, websockets,
  processes, configuration files and JSON, around the library.
- `tests/` — tests of the library.
