//! Parser for the classic line-oriented filesystem mount-table format.
//!
//! Each line of such a file is either a comment (first non-blank character
//! is `#`), a record of three to six whitespace-separated fields, or
//! malformed. Records become [`FSTabEntry`] values; comments and malformed
//! lines are silently dropped. [`parse_fstab`] assembles the surviving
//! records, in input order, into an [`FSTabFile`].

pub mod laws;
pub mod model;
pub mod parse;

pub use parse::{parse_fstab, parse_fstab_line, FSTabEntry, FSTabFile};
