//! Scanning compact blocks, by what the key can do.
//!
//! - [`ivk::scan_ivk`]: incoming notes only
//! - [`fvk::scan_fvk`]: incoming notes with their nullifiers, spends, and transparent
//!   inputs and outputs
//!
//! Within a block, the actions and outputs of all transactions are decrypted as one
//! batch per pool.

pub mod blocks;
pub mod fvk;
pub mod ivk;
pub mod parsers;
pub mod stream;
pub mod types;
pub mod view_laws;

pub use fvk::scan_fvk;
pub use ivk::scan_ivk;
pub use stream::{scan_stream_ivk, StreamFvkResult};
pub use types::{
    FvkScanResult, IncomingNoteView, ScanEvent, SentNoteView, TransparentReceived, TransparentSpend,
};
