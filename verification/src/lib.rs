//! Turns the free-text log output of a directory-mirroring copy tool into
//! flat run records: one record per copy run, with its start and end
//! timestamps, source and destination paths, and six-field roll-up counters
//! for directories, files and bytes.
//!
//! The work is done by three verified pieces: a key-value line splitter
//! ([`kv_split`]), a footer counter-block decoder ([`FooterDetail`]), and a
//! five-state line parser ([`parser::LogParser`], driven whole-file by
//! [`parser::parse_runs`]). Reading the log bytes, decoding their character
//! set and rendering records as tab-separated text are left to the caller.

pub mod counter;
pub mod datetime;
pub mod parser;
pub mod text;

pub use counter::FooterDetail;
pub use text::kv_split;

use vstd::prelude::*;

verus! {

/// The fatal errors that can arise while decoding a log file: a header or
/// footer timestamp that does not match the configured date format, a footer
/// counter field that is not a recognizable number or carries an unknown
/// unit letter, and a counter block that ran out of fields before six were
/// decoded.
#[derive(Clone, Copy, PartialEq, Eq, Structural, Debug)]
pub enum ParseError {
    MalformedTimestamp,
    MalformedCounterBlock,
    InsufficientFields,
}

} // verus!
