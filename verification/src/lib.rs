//! Handball match-data toolkit.
//!
//! A match is stored as an append-only log of facts (a goal was scored, a phase
//! started, the clock stopped).  Everything else — score, timeline, per-player
//! stats, what the recording UI may offer next — is derived from that log by pure
//! functions.  The library owns those derivations and the rules that decide them;
//! it holds no state, reads no clock and generates no identifiers.
//!
//! Clock readings are fixed-point seconds with millisecond resolution
//! ([`clock::Seconds`]); instants in calendar time are nanoseconds since the Unix
//! epoch ([`clock::UtcDateTime`]); identifiers are the 128-bit value of a UUID.

pub mod clock;
pub mod configuration;
pub mod corpus;
pub mod entry_points;
pub mod ids;
pub mod entities;
pub mod facts;
pub mod persistence_order;
pub mod projection;
pub mod sample_dto;
pub mod sample_import;
pub mod seqs;
pub mod sorting;
pub mod text;
pub mod validation;
