//! The viewing keys that drive a scan, by what they can do.

pub mod fvk;
pub mod ivk;
pub mod ovk;

use vstd::prelude::*;
use vstd::string::*;

use crate::primitives::Network;
use crate::upstream::text::{char_is_whitespace, is_whitespace};
use crate::upstream::unified_keys::{
    decode_ufvk, decode_uivk, ufvk_of, uivk_of, KeyParts, UnifiedFullViewingKey,
    UnifiedIncomingViewingKey,
};

verus! {

/// The characters that are not white space, in order.
pub open spec fn stripped(text: Seq<char>) -> Seq<char>
    decreases text.len(),
{
    if text.len() == 0 {
        Seq::empty()
    } else if is_whitespace(text.last()) {
        stripped(text.drop_last())
    } else {
        stripped(text.drop_last()).push(text.last())
    }
}

/// The text without its white space.
pub fn strip_whitespace(text: &str) -> (kept: String)
    ensures
        kept@ == stripped(text@),
{
    let mut kept = String::new();
    let n = text.unicode_len();
    let mut i: usize = 0;
    assert(text@.take(0) =~= Seq::empty());
    while i < n
        invariant
            0 <= i <= n,
            n == text@.len(),
            kept@ == stripped(text@.take(i as int)),
        decreases n - i,
    {
        proof {
            assert(text@.take(i as int + 1).drop_last() =~= text@.take(i as int));
        }
        if !char_is_whitespace(text.get_char(i)) {
            let piece = text.substring_char(i, i + 1);
            let ghost before = kept@;
            kept.append(piece);
            assert(kept@ =~= before.push(text@[i as int]));
        }
        i = i + 1;
    }
    assert(text@.take(i as int) =~= text@);
    kept
}

/// Decodes a unified full viewing key. White space is stripped first, so that a key
/// pasted across line breaks still decodes. Where it does not, the error is the text
/// that says why.
pub fn decode(network: Network, encoded: &str) -> (key: Result<UnifiedFullViewingKey, String>)
    ensures
        key is Ok == ufvk_of(network, stripped(encoded@)) is Ok,
        key is Ok ==> ufvk_of(network, stripped(encoded@)) == Ok::<KeyParts, Seq<char>>(
            (key->Ok_0)@,
        ),
        key is Err ==> ufvk_of(network, stripped(encoded@)) == Err::<KeyParts, Seq<char>>(
            (key->Err_0)@,
        ),
{
    let kept = strip_whitespace(encoded);
    decode_ufvk(network, kept.as_str())
}

impl UnifiedFullViewingKey {
    /// Decodes a unified full viewing key, or tells why the string is none.
    pub fn decode(network: Network, encoding: &str) -> (key: Result<Self, String>)
        ensures
            match key {
                Ok(k) => ufvk_of(network, encoding@) == Ok::<KeyParts, Seq<char>>(k@),
                Err(e) => ufvk_of(network, encoding@) == Err::<KeyParts, Seq<char>>(e@),
            },
    {
        decode_ufvk(network, encoding)
    }
}

impl UnifiedIncomingViewingKey {
    /// Decodes a unified incoming viewing key, or tells why the string is none.
    pub fn decode(network: Network, encoding: &str) -> (key: Result<Self, String>)
        ensures
            match key {
                Ok(k) => uivk_of(network, encoding@) == Ok::<KeyParts, Seq<char>>(k@),
                Err(e) => uivk_of(network, encoding@) == Err::<KeyParts, Seq<char>>(e@),
            },
    {
        decode_uivk(network, encoding)
    }
}

/// Stripping leaves exactly the characters that are not white space, in order.
pub proof fn law_stripping_takes_white_space(text: Seq<char>)
    ensures
        stripped(text) == text.filter(|c: char| !is_whitespace(c)),
    decreases text.len(),
{
    reveal(Seq::filter);
    if text.len() > 0 {
        law_stripping_takes_white_space(text.drop_last());
    } else {
        assert(stripped(text) =~= text.filter(|c: char| !is_whitespace(c)));
    }
}

} // verus!
