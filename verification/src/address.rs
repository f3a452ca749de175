//! Standard transparent locking scripts.

use vstd::prelude::*;

use crate::bytes::to_array;
use crate::primitives::TransparentAddress;
use crate::upstream::transparent_keys::script_of;

verus! {

/// A standard kind of locking script.
#[derive(Debug, Clone, Copy, PartialEq, Eq, Hash, Structural)]
pub enum ScriptType {
    /// Pay to a public key's hash.
    P2pkh,
    /// Pay to a script's hash.
    P2sh,
}

/// The locking script of a kind, with a hash in it.
pub open spec fn standard_script(kind: ScriptType, hash: Seq<u8>) -> Seq<u8> {
    match kind {
        ScriptType::P2pkh => seq![0x76u8, 0xa9, 0x14] + hash + seq![0x88u8, 0xac],
        ScriptType::P2sh => seq![0xa9u8, 0x14] + hash + seq![0x87u8],
    }
}

/// Recognizes a standard locking script, and gives its kind and the hash in it.
///
/// Every other script (multisig, data carriers and the like) gives `None`.
pub fn parse_script(script: &[u8]) -> (parsed: Option<(ScriptType, [u8; 20])>)
    ensures
        match parsed {
            Some((kind, hash)) => script@ == standard_script(kind, hash@),
            None => forall|kind: ScriptType, hash: [u8; 20]|
                script@ != #[trigger] standard_script(kind, hash@),
        },
{
    if script.len() == 25 && script[0] == 0x76 && script[1] == 0xa9 && script[2] == 0x14
        && script[23] == 0x88 && script[24] == 0xac {
        let hash: Option<[u8; 20]> = to_array(vstd::slice::slice_subrange(script, 3, 23));
        if let Some(hash) = hash {
            assert(script@ =~= standard_script(ScriptType::P2pkh, hash@));
            return Some((ScriptType::P2pkh, hash));
        }
    }
    if script.len() == 23 && script[0] == 0xa9 && script[1] == 0x14 && script[22] == 0x87 {
        let hash: Option<[u8; 20]> = to_array(vstd::slice::slice_subrange(script, 2, 22));
        if let Some(hash) = hash {
            assert(script@ =~= standard_script(ScriptType::P2sh, hash@));
            return Some((ScriptType::P2sh, hash));
        }
    }
    proof {
        assert forall|kind: ScriptType, hash: [u8; 20]| script@ != #[trigger] standard_script(
            kind,
            hash@,
        ) by {
            let standard = standard_script(kind, hash@);
            assert(standard.len() == 25 ==> standard[0] == 0x76 && standard[1] == 0xa9
                && standard[2] == 0x14 && standard[23] == 0x88 && standard[24] == 0xac);
            assert(standard.len() == 23 ==> standard[0] == 0xa9 && standard[1] == 0x14
                && standard[22] == 0x87);
        }
    }
    None
}

/// A script has one kind and one hash.
pub proof fn law_script_is_unambiguous(
    kind: ScriptType,
    hash: [u8; 20],
    other_kind: ScriptType,
    other_hash: [u8; 20],
)
    requires
        standard_script(kind, hash@) == standard_script(other_kind, other_hash@),
    ensures
        kind == other_kind,
        hash@ == other_hash@,
{
    let script = standard_script(kind, hash@);
    assert(kind == other_kind) by {
        assert(standard_script(ScriptType::P2pkh, hash@).len() == 25);
        assert(standard_script(ScriptType::P2sh, hash@).len() == 23);
        assert(standard_script(ScriptType::P2pkh, other_hash@).len() == 25);
        assert(standard_script(ScriptType::P2sh, other_hash@).len() == 23);
    }
    let start: int = if kind == ScriptType::P2pkh { 3 } else { 2 };
    assert(script.subrange(start, start + 20) =~= hash@);
    assert(script.subrange(start, start + 20) =~= other_hash@);
}

/// The script of an address is a standard script with the address's hash in it.
pub proof fn law_address_script_is_standard(address: TransparentAddress)
    ensures
        match address {
            TransparentAddress::PublicKeyHash(hash) => script_of(address) == standard_script(
                ScriptType::P2pkh,
                hash@,
            ),
            TransparentAddress::ScriptHash(hash) => script_of(address) == standard_script(
                ScriptType::P2sh,
                hash@,
            ),
        },
{
}

} // verus!
