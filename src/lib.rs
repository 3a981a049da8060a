//! Integrity fingerprints and structural diffs for tabular data.
//!
//! A [`Table`] is fingerprinted by [`TableHashes::compute`] at three
//! granularities (whole table, column, row), captured with its digests in a
//! [`Snapshot`], and compared with another snapshot by
//! [`SnapshotDiff::compute`].

pub mod diff;
pub mod hashes;
pub mod snapshot;
pub mod table;

pub use diff::{Change, DiffSummary, SnapshotDiff};
pub use hashes::TableHashes;
pub use snapshot::{Dependency, Snapshot, Timestamp};
pub use table::{ParseError, Table, TableModel};
