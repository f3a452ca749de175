//! Numbers in text.

use vstd::prelude::*;
use vstd::string::*;

verus! {

/// The digit of a number below 10.
pub open spec fn digit(n: nat) -> Seq<char> {
    if n == 0 {
        "0"@
    } else if n == 1 {
        "1"@
    } else if n == 2 {
        "2"@
    } else if n == 3 {
        "3"@
    } else if n == 4 {
        "4"@
    } else if n == 5 {
        "5"@
    } else if n == 6 {
        "6"@
    } else if n == 7 {
        "7"@
    } else if n == 8 {
        "8"@
    } else {
        "9"@
    }
}

/// The decimal digits of a number.
pub open spec fn decimal(n: nat) -> Seq<char>
    decreases n,
{
    if n < 10 {
        digit(n)
    } else {
        decimal(n / 10) + digit(n % 10)
    }
}

/// Appends the decimal digits of a number.
pub fn append_decimal(text: &mut String, n: u64)
    ensures
        final(text)@ == old(text)@ + decimal(n as nat),
    decreases n,
{
    if n >= 10 {
        append_decimal(text, n / 10);
    }
    let last: &str = match n % 10 {
        0 => "0",
        1 => "1",
        2 => "2",
        3 => "3",
        4 => "4",
        5 => "5",
        6 => "6",
        7 => "7",
        8 => "8",
        _ => "9",
    };
    text.append(last);
    assert(text@ =~= old(text)@ + decimal(n as nat));
}

/// The hexadecimal digit of a number below 16.
pub open spec fn hex_digit(n: nat) -> Seq<char> {
    if n < 10 {
        digit(n)
    } else if n == 10 {
        "a"@
    } else if n == 11 {
        "b"@
    } else if n == 12 {
        "c"@
    } else if n == 13 {
        "d"@
    } else if n == 14 {
        "e"@
    } else {
        "f"@
    }
}

/// The bytes in hexadecimal, the last one first.
pub open spec fn hex_reversed(bytes: Seq<u8>) -> Seq<char>
    decreases bytes.len(),
{
    if bytes.len() == 0 {
        Seq::empty()
    } else {
        hex_digit(bytes.last() as nat / 16) + hex_digit(bytes.last() as nat % 16) + hex_reversed(
            bytes.drop_last(),
        )
    }
}

/// The hexadecimal digit of a number below 16.
fn hex_char(n: u8) -> (text: &'static str)
    requires
        n < 16,
    ensures
        text@ == hex_digit(n as nat),
{
    match n {
        0 => "0",
        1 => "1",
        2 => "2",
        3 => "3",
        4 => "4",
        5 => "5",
        6 => "6",
        7 => "7",
        8 => "8",
        9 => "9",
        10 => "a",
        11 => "b",
        12 => "c",
        13 => "d",
        14 => "e",
        _ => "f",
    }
}

/// Appends the bytes in hexadecimal, the last one first, which is how a transaction id is
/// shown.
pub fn append_hex_reversed(text: &mut String, bytes: &[u8])
    ensures
        final(text)@ == old(text)@ + hex_reversed(bytes@),
{
    let mut k: usize = bytes.len();
    assert(bytes@.take(k as int) =~= bytes@);
    while k > 0
        invariant
            0 <= k <= bytes@.len(),
            text@ + hex_reversed(bytes@.take(k as int)) == old(text)@ + hex_reversed(bytes@),
        decreases k,
    {
        proof {
            assert(bytes@.take(k as int).drop_last() =~= bytes@.take(k as int - 1));
        }
        let ghost before = text@;
        let byte: u8 = bytes[k - 1];
        text.append(hex_char(byte / 16));
        text.append(hex_char(byte % 16));
        assert(text@ + hex_reversed(bytes@.take(k as int - 1)) =~= before + hex_reversed(
            bytes@.take(k as int),
        ));
        k = k - 1;
    }
    assert(bytes@.take(0) =~= Seq::empty());
    assert(text@ =~= text@ + hex_reversed(bytes@.take(0)));
}

/// A number is written digit by digit, the highest first.
pub proof fn law_decimal_is_written_highest_digit_first(n: nat, d: nat)
    requires
        d < 10,
    ensures
        decimal(d) == digit(d),
        n > 0 ==> decimal(10 * n + d) == decimal(n) + digit(d),
{
    if n > 0 {
        assert((10 * n + d) / 10 == n);
        assert((10 * n + d) % 10 == d);
    }
}

/// Bytes are written from the last to the first, each with its high digit first.
pub proof fn law_hex_is_written_from_the_last_byte(bytes: Seq<u8>, b: u8)
    ensures
        hex_reversed(Seq::<u8>::empty()).len() == 0,
        hex_reversed(bytes.push(b)) == hex_digit(b as nat / 16) + hex_digit(b as nat % 16)
            + hex_reversed(bytes),
{
    assert(bytes.push(b).drop_last() =~= bytes);
}

} // verus!
