//! Memo fields, as `zcash_protocol` decodes them.
//!
//! | First byte | Meaning |
//! |---|---|
//! | `0xF6` followed by zeros | [`Memo::Empty`] |
//! | `0x00..=0xF4` | [`Memo::Text`], without the zeros at its end |
//! | `0xFF` | [`Memo::Arbitrary`]: 511 bytes of data |
//! | anything else | [`Memo::Future`] |

pub use zcash_protocol::memo::{Error, Memo, MemoBytes, TextMemo};
