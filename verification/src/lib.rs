//! A column-oriented analytical storage engine in the MergeTree family.
//!
//! Rows are stored column-by-column in immutable sorted parts.  Each part
//! holds one granule-compressed file per column, a sparse primary-key mark
//! index, and a part-info sidecar; every persisted file is framed by a magic
//! prefix and a trailing CRC32.  Inserts build sorted parts, a background
//! merger folds the two oldest parts of a table into one, and scans prune
//! granules through the mark index before decoding them.

use vstd::prelude::*;

pub mod codec;
pub mod column_header;
pub mod commands;
pub mod compression;
pub mod engines;
pub mod error;
pub mod fields;
pub mod filter;
pub mod framing;
pub mod names;
pub mod part;
pub mod pruning;
pub mod recovery;
pub mod scan;
pub mod storage;
pub mod value;

verus! {

} // verus!
