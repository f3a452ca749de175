//! Which bytes encode an element of a field: 32 bytes whose number, read with the least
//! significant byte first, is below the field's modulus.

use vstd::prelude::*;

verus! {

/// The number that bytes stand for, the least significant first.
pub open spec fn number_of(bytes: Seq<u8>) -> nat
    decreases bytes.len(),
{
    if bytes.len() == 0 {
        0
    } else {
        number_of(bytes.drop_first()) * 256 + bytes[0] as nat
    }
}

/// Whether bytes encode an element of the base field of the Pallas curve.
pub open spec fn is_pallas_base(bytes: Seq<u8>) -> bool {
    number_of(bytes) < 0x40000000000000000000000000000000224698fc094cf91b992d30ed00000001int
}

/// Whether bytes encode an element of the scalar field of BLS12-381, which is the base field
/// of the Jubjub curve.
pub open spec fn is_jubjub_base(bytes: Seq<u8>) -> bool {
    number_of(bytes) < 0x73eda753299d7d483339d80809a1d80553bda402fffe5bfeffffffff00000001int
}

} // verus!
