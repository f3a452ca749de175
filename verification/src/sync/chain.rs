//! What the lightwalletd client decides: which servers to try, and when the chain has
//! forked.

use vstd::prelude::*;
use vstd::string::*;

use crate::bytes::{array32, lemma_array32, same32, to_array};
use crate::primitives::Network;

verus! {

/// An error that a lightwalletd server returned.
#[derive(Debug, Clone, PartialEq, Eq)]
pub struct RpcError {
    /// The status code's name.
    pub code: String,
    /// The status message.
    pub message: String,
}

impl RpcError {
    /// The error in words.
    pub open spec fn text(self) -> Seq<char> {
        "lightwalletd RPC "@ + self.code@ + ": "@ + self.message@
    }

    /// The error in words.
    pub fn to_text(&self) -> (text: String)
        ensures
            text@ == self.text(),
    {
        let mut text = "lightwalletd RPC ".to_owned();
        text.append(self.code.as_str());
        text.append(": ");
        text.append(self.message.as_str());
        text
    }
}

/// No bundled lightwalletd server is available.
#[derive(Debug, Clone, Copy, PartialEq, Eq)]
pub struct NoServer;

impl NoServer {
    /// The error in words.
    pub fn to_text(&self) -> (text: String)
        ensures
            text@ == "no bundled lightwalletd server is available"@,
    {
        "no bundled lightwalletd server is available".to_owned()
    }
}

/// The bundled servers of a network, in the order in which they are tried.
pub open spec fn server_urls(network: Network) -> Seq<Seq<char>> {
    match network {
        Network::MainNetwork => seq![
            "https://zec.rocks:443"@,
            "https://na.zec.rocks:443"@,
            "https://eu.zec.rocks:443"@,
            "https://ap.zec.rocks:443"@,
        ],
        Network::TestNetwork => seq!["https://testnet.zec.rocks:443"@],
    }
}

/// The bundled servers of a network, in the order in which they are tried.
pub fn servers(network: Network) -> (urls: Vec<&'static str>)
    ensures
        urls@.map_values(|url: &str| url@) == server_urls(network),
{
    let mut urls: Vec<&'static str> = Vec::new();
    match network {
        Network::MainNetwork => {
            urls.push("https://zec.rocks:443");
            urls.push("https://na.zec.rocks:443");
            urls.push("https://eu.zec.rocks:443");
            urls.push("https://ap.zec.rocks:443");
        },
        Network::TestNetwork => {
            urls.push("https://testnet.zec.rocks:443");
        },
    }
    assert(urls@.map_values(|url: &str| url@) =~= server_urls(network));
    urls
}

/// The height of the last trusted block, where a block does not name it as its
/// predecessor.
pub open spec fn fork_at(prior: Option<(u32, [u8; 32])>, prev_hash: [u8; 32]) -> Option<u32> {
    match prior {
        Some((height, hash)) => if prev_hash != hash {
            Some(height)
        } else {
            None
        },
        None => None,
    }
}

/// Tells whether `prev_hash` connects to the last trusted block: where it does not, the
/// chain has forked at that block or before it, and its height is returned.
pub fn detect_reorg(prior: Option<(u32, [u8; 32])>, prev_hash: [u8; 32]) -> (at: Option<u32>)
    ensures
        at == fork_at(prior, prev_hash),
{
    if let Some((height, hash)) = prior {
        if !same32(&prev_hash, &hash) {
            return Some(height);
        }
    }
    None
}

/// The height and hash of the last block of the chain, where the height fits in 32 bits
/// and the hash has 32 bytes.
pub fn chain_tip(height: u64, hash: &Vec<u8>) -> (tip: Option<(u32, [u8; 32])>)
    ensures
        tip == (if height <= u32::MAX && hash@.len() == 32 {
            Some((height as u32, array32(hash@)))
        } else {
            None
        }),
{
    if height > u32::MAX as u64 {
        return None;
    }
    match to_array(hash.as_slice()) {
        Some(hash) => {
            proof {
                lemma_array32(hash);
            }
            Some((height as u32, hash))
        },
        None => None,
    }
}

} // verus!
