//! The logic of a write-ahead log that provides atomic and durable writes.
//!
//! Entries are appended to the active segment file by one writer at a time. A
//! file that has grown long enough is replaced; its entries are checkpointed,
//! and it is emptied and kept for reuse. Opening a log brings back the entries
//! that had not been checkpointed.
//!
//! The library decides. What it decides to have done to files, threads and locks
//! is returned as a value, and the caller reports what came of it.
pub mod checkpoint;
pub mod chunk;
pub mod discovery;
pub mod entry;
pub mod files;
pub mod names;
pub mod reclaim;
pub mod recovery;
pub mod wal;

pub use crate::checkpoint::{Checkpoint, CheckpointEvent, WriterStatus};
pub use crate::chunk::ChunkReader;
pub use crate::entry::{EntryId, LogPosition, Timestamp};
pub use crate::files::{Activation, DirectorySync, Files};
pub use crate::reclaim::{Reclaim, ReclaimEvent, WriteResult};
pub use crate::recovery::{LogRecovery, RecoveredLog, Recovery, RecoveryEvent, RecoveryStage};
pub use crate::wal::{Configuration, FullSegment, WriteAheadLog};
