# handball_toolkit

A handball match is stored as an append-only log of facts: a goal was scored, a
phase started, the clock stopped. Everything else (scores, the timeline, player
stats, possession, what the recording screen may offer next) is derived from that
log by pure functions. This crate holds those derivations and the rules around the
published sample-match files, written in Verus with their contracts proved.

The library holds no state, reads no clock and generates no identifiers: where an
operation needs identifiers, the caller asks how many (`required_id_count`,
`required_import_id_count`), generates them and hands them in.

## Layout

- `src/` — the verified library.
  - `clock`, `configuration`, `entities`, `facts`, `ids` — the domain types.
  - `persistence_order` — the order fact logs are stored and read in.
  - `projection/` — segment resolution, timeline, summary, score progression,
    possession and the live-match projection.
  - `sample_dto/` — the sample-file wire types, conversion into domain values and
    export back.
  - `sample_import` — planning the import of a sample file into stored teams and
    players.
  - `corpus/` — the checks run over a published corpus, the findings they report and
    the command line of the validator.
  - `entry_points` — coarse entry points for the shells.
- `tests/` — tests of the library on concrete values.
- `app/` — the command-line validator and the JSON edge: reading files, serde copies
  of the wire types, the pretty JSON encoder, findings as JSON, scoring rates.

Clock readings are fixed-point seconds with millisecond resolution; instants are
nanoseconds since the Unix epoch; identifiers are the 128-bit value of a UUID. The
shell converts to and from `f64` seconds, `chrono` instants and `uuid` values.
