//! An append-only structured-record logger: records are grouped by table
//! name, written as delimited rows into a rotating set of files, and old
//! files are pruned to bound disk usage.
//!
//! The library is the rotation and retention state machine. It decides, per
//! table, which file is currently written, when a new file (an "epoch") must
//! be opened, how the epoch number is recovered after a restart, and when
//! older epochs must be deleted. It performs no I/O itself: every operation
//! returns the list of filesystem actions that a thin shell must carry out.

pub mod actions;
pub mod digits;
pub mod laws;
pub mod logger;
pub mod marker;
pub mod paths;
pub mod row;
pub mod table;
