//! Decoder for OJN rhythm-game chart files.
//!
//! The library works on the bytes of one chart file: it reads the fixed
//! header, the table of segment boundaries and the three event streams, and
//! assembles the chart record with one playable-note count per difficulty.
//!
//! - `bytes`: little-endian integers in a byte sequence.
//! - `text`: text fields, EUC-KR up to the first zero byte.
//! - `header`: the 300-byte header.
//! - `offsets`: the table of boundary markers and the segments it bounds.
//! - `notes`: the note counter, a state machine over one segment.
//! - `parser`: the chart record, the error type and the assembly.
//! - `config`: validation of the application's configuration.
pub mod bytes;
pub mod config;
pub mod header;
pub mod notes;
pub mod offsets;
pub mod parser;
pub mod text;
