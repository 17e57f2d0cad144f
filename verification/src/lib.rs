//! A local-first document store: per-universe update logs with snapshot
//! compaction, a blob store with soft delete, and a ledger of peer clocks,
//! dispatched through a pool keyed by universe id.
//!
//! The store lives in memory. Every operation is one step from the state
//! before it to the state after it, and its contract says which step; keeping
//! the state on disk, and sharing a pool between tasks, is the embedder's
//! part.

pub mod blob;
pub mod doc;
pub mod doc_loader;
pub mod document;
pub mod error;
pub mod laws;
pub mod pool;
pub mod seqs;
pub mod storage;
pub mod sync;
pub mod table;
pub mod time;

pub use blob::{Blob, ListedBlob, SetBlob};
pub use doc::{DocClock, DocRecord, DocUpdate};
pub use error::StorageError;
pub use pool::DocStoragePool;
pub use storage::{ClockKind, Storage};
