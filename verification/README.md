# caldawarrior

Bidirectional sync between TaskWarrior tasks and CalDAV VTODO calendars, with
last-write-wins conflict resolution. The sync logic is a Verus library whose
functions carry `requires`/`ensures` contracts proved by Verus; the command-line
program around it is ordinary Rust.

## Layout

- `src/` — the verified library.
  - `types.rs`: the data model (tasks, VTODOs, IR entries, planned operations) and
    the mathematical view of each type.
  - `ical/`: RFC 5545 reading and writing — escaping, folding, content lines,
    date-times, the VTODO reader and writer, and `round.rs`, the proof that the
    reader gives back what the writer wrote, for VTODOs whose text fields, instants
    and properties the writer can carry (the writer always writes date-times, so a
    date-only DUE or DTSTART reads back as a date-time).
  - `mapper/`: field and status mapping between TaskWarrior and CalDAV.
  - `ir.rs`: pairing TaskWarrior tasks with fetched VTODOs.
  - `sync/`: dependency resolution and cycle detection, last-write-wins, planning,
    write-back, the sync cycle, and `stable.rs` (a write reaches a stable point).
  - `caldav_adapter/`: ETag handling, HTTP status decisions, the multistatus REPORT
    reader (over quick-xml), and `CalDavLog`, which records every write the sync
    engine sends through a client.
  - `tw_adapter.rs`: the TaskWarrior write interface with `TwLog`, its record of the
    writes sent, and the decisions taken on what
    `task` reports, plus TaskWarrior's JSON field formats.
  - `config.rs`, `output.rs`, `error.rs`: configuration checks, the report, errors.
  - `trusted.rs`: the calls into uuid, chrono and chrono-tz, each with the contract it
    is relied on to meet.
- `tests/` — tests run against the compiled library.
- `app/` — the `caldawarrior` program: command line, configuration file, the `task`
  process, HTTP, and JSON/TOML (de)serialization.
