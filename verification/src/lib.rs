//! View-key-only Zcash chain sync.
//!
//! With a unified full viewing key or a unified incoming viewing key, every note and spend
//! that the key can see is found in the compact blocks that lightwalletd serves. Nothing
//! here reads or sends anything: blocks and transactions come in as plain values, and what
//! was found and what to do next go out as plain values.

pub mod address;
pub mod bytes;
pub mod chain;
pub mod db;
pub mod decrypt;
pub mod error;
pub mod key;
pub mod keys;
pub mod memo;
pub mod note;
pub mod primitives;
pub mod proto;
pub mod scan;
pub mod seqs;
pub mod sync;
pub mod text;
pub mod tree;
pub mod upstream;
pub mod view_laws;

pub use db::{Db, DbError};
pub use primitives::Network;
pub use sync::decrypt::ScanningKeys;
pub use sync::scan::Nullifiers;
pub use sync::{Cursor, Resume, SyncError};
pub use upstream::unified_keys::{UnifiedFullViewingKey, UnifiedIncomingViewingKey};
