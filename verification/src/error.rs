//! Errors of scanning and of chain operations.

use vstd::prelude::*;
use vstd::string::*;

use crate::text::{append_decimal, decimal};

verus! {

/// Why scanning or a chain operation failed.
#[derive(Debug, Clone, PartialEq, Eq)]
pub enum SeerError {
    /// A call to the server failed.
    Grpc(String),
    /// A block does not name the block before it as its predecessor.
    Reorg {
        /// The block's height.
        height: u32,
    },
    /// A field of a message was missing or had the wrong length.
    Proto(String),
    /// A viewing key could not be decoded.
    Key(String),
    /// An address could not be decoded.
    Address(String),
    /// Anything else.
    Anyhow(String),
    /// The database failed.
    Db(String),
}

impl SeerError {
    /// The error in words.
    pub open spec fn text(self) -> Seq<char> {
        match self {
            SeerError::Grpc(e) => "gRPC transport error: "@ + e@,
            SeerError::Reorg { height } => "chain reorganization detected at height "@ + decimal(
                height as nat,
            ),
            SeerError::Proto(e) => "protobuf field is malformed: "@ + e@,
            SeerError::Key(e) => "key decode failed: "@ + e@,
            SeerError::Address(e) => "address decode failed: "@ + e@,
            SeerError::Anyhow(e) => e@,
            SeerError::Db(e) => "database error: "@ + e@,
        }
    }

    /// The error in words.
    pub fn to_text(&self) -> (text: String)
        ensures
            text@ == self.text(),
    {
        match self {
            SeerError::Grpc(e) => joined("gRPC transport error: ", e),
            SeerError::Reorg { height } => {
                let mut text = "chain reorganization detected at height ".to_owned();
                append_decimal(&mut text, *height as u64);
                text
            },
            SeerError::Proto(e) => joined("protobuf field is malformed: ", e),
            SeerError::Key(e) => joined("key decode failed: ", e),
            SeerError::Address(e) => joined("address decode failed: ", e),
            SeerError::Anyhow(e) => e.as_str().to_owned(),
            SeerError::Db(e) => joined("database error: ", e),
        }
    }
}

/// Two texts as one.
pub fn joined(start: &str, end: &String) -> (text: String)
    ensures
        text@ == start@ + end@,
{
    let mut text = start.to_owned();
    text.append(end.as_str());
    text
}

} // verus!
