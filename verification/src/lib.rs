//! Position-tracking core for a compiler front end.
//!
//! Given the raw text of one source file, this library builds an index of
//! line starts, multi-byte characters, and non-narrow (zero-width, wide, or
//! tab) characters, and answers conversions between byte offsets and
//! human-meaningful line/column locations against that frozen index.
//!
//! The scanner lives in [`analyze`], with its mathematical model and the
//! lemmas about it in [`scan_model`]; the immutable source-file record and
//! its query surface live in [`file`], with the byte-to-character
//! arithmetic in [`charpos`]; [`pos`] holds the position newtypes,
//! [`chars`] the per-character records, [`hashes`] content hashing and
//! stable identity, and [`unicode`] the display-width lookup.

pub mod analyze;
pub mod chars;
pub mod charpos;
pub mod file;
pub mod hashes;
pub mod pos;
pub mod scan_model;
pub mod unicode;
