//! What a memo field means.
//!
//! Every shielded note carries a memo field of 512 bytes, in one of three encodings:
//!
//! | Bytes | Meaning |
//! |---|---|
//! | `0xFF`, all of them | no memo |
//! | `0xF4` first | 511 bytes of binary data |
//! | anything else | UTF-8 text, padded with zeros |

use vstd::prelude::*;
use vstd::string::*;
use vstd::utf8::{decode_utf8, valid_utf8};

use crate::bytes::to_array;
use crate::upstream::text::text_from_utf8;

verus! {

/// A decoded memo.
#[derive(Debug, Clone, PartialEq, Eq)]
pub enum Memo {
    /// No memo was set: all 512 bytes are `0xFF`.
    Empty,
    /// Text, without the zeros at its end.
    Text(String),
    /// Binary data.
    Arbitrary(Box<[u8; 511]>),
}

/// What a memo holds.
pub enum MemoView {
    /// No memo.
    Empty,
    /// Text.
    Text(Seq<char>),
    /// Binary data.
    Arbitrary(Seq<u8>),
}

/// The bytes without the zeros at their end.
pub open spec fn stripped(bytes: Seq<u8>) -> Seq<u8>
    decreases bytes.len(),
{
    if bytes.len() > 0 && bytes.last() == 0 {
        stripped(bytes.drop_last())
    } else {
        bytes
    }
}

/// Whether every byte is `0xFF`.
pub open spec fn is_unset(bytes: Seq<u8>) -> bool {
    forall|i: int| 0 <= i < bytes.len() ==> bytes[i] == 0xFF
}

/// What a memo field means. Text that is not valid UTF-8 is kept as binary data.
pub open spec fn memo_of(bytes: Seq<u8>) -> MemoView {
    if is_unset(bytes) {
        MemoView::Empty
    } else if bytes[0] == 0xF4 {
        MemoView::Arbitrary(bytes.skip(1))
    } else if valid_utf8(stripped(bytes)) {
        MemoView::Text(decode_utf8(stripped(bytes)))
    } else {
        MemoView::Arbitrary(bytes.skip(1))
    }
}

/// What is left after the zeros at the end are stripped ends where the zeros start.
proof fn lemma_stripped(bytes: Seq<u8>, end: int)
    requires
        0 <= end <= bytes.len(),
        end > 0 ==> bytes[end - 1] != 0,
        forall|i: int| end <= i < bytes.len() ==> bytes[i] == 0,
    ensures
        stripped(bytes) == bytes.take(end),
    decreases bytes.len() - end,
{
    if end < bytes.len() {
        lemma_stripped(bytes.drop_last(), end);
        assert(bytes.drop_last().take(end) =~= bytes.take(end));
    } else {
        assert(bytes.take(end) =~= bytes);
    }
}

/// The bytes after the first.
fn payload(bytes: &[u8; 512]) -> (data: Box<[u8; 511]>)
    ensures
        (*data)@ == bytes@.skip(1),
{
    let slice = vstd::slice::slice_subrange(bytes.as_slice(), 1, 512);
    assert(bytes@.subrange(1, 512) =~= bytes@.skip(1));
    let data: Option<[u8; 511]> = to_array(slice);
    match data {
        Some(data) => Box::new(data),
        None => Box::new([0u8; 511]),
    }
}

impl Memo {
    /// What the memo holds.
    pub open spec fn view(&self) -> MemoView {
        match *self {
            Memo::Empty => MemoView::Empty,
            Memo::Text(text) => MemoView::Text(text@),
            Memo::Arbitrary(data) => MemoView::Arbitrary((*data)@),
        }
    }

    /// Decodes a memo field.
    ///
    /// Where the first byte tells text but the bytes are not valid UTF-8, they are kept
    /// as [`Memo::Arbitrary`].
    pub fn from_bytes(bytes: &[u8; 512]) -> (memo: Self)
        ensures
            memo@ == memo_of(bytes@),
    {
        let mut unset: usize = 0;
        while unset < 512 && bytes[unset] == 0xFF
            invariant
                0 <= unset <= 512,
                forall|i: int| 0 <= i < unset ==> bytes@[i] == 0xFF,
            decreases 512 - unset,
        {
            unset = unset + 1;
        }
        if unset == 512 {
            return Memo::Empty;
        }
        assert(!is_unset(bytes@)) by {
            assert(bytes@[unset as int] != 0xFF);
        }
        if bytes[0] == 0xF4 {
            return Memo::Arbitrary(payload(bytes));
        }
        let mut end: usize = 512;
        while end > 0 && bytes[end - 1] == 0
            invariant
                0 <= end <= 512,
                forall|i: int| end <= i < 512 ==> bytes@[i] == 0,
            decreases end,
        {
            end = end - 1;
        }
        proof {
            lemma_stripped(bytes@, end as int);
        }
        let text = vstd::slice::slice_subrange(bytes.as_slice(), 0, end);
        assert(bytes@.subrange(0, end as int) =~= bytes@.take(end as int));
        match text_from_utf8(text) {
            Some(text) => Memo::Text(text),
            None => Memo::Arbitrary(payload(bytes)),
        }
    }

    /// The text, where the memo is [`Memo::Text`].
    pub fn as_text(&self) -> (text: Option<&str>)
        ensures
            (match text {
                Some(t) => Some(t@),
                None => None,
            }) == (match self@ {
                MemoView::Text(t) => Some(t),
                _ => None,
            }),
    {
        match self {
            Memo::Text(text) => Some(text.as_str()),
            _ => None,
        }
    }

    /// Whether there is no memo.
    pub fn is_empty(&self) -> (empty: bool)
        ensures
            empty == (self@ is Empty),
    {
        match self {
            Memo::Empty => true,
            _ => false,
        }
    }

    /// The memo for display.
    pub fn to_text(&self) -> (text: String)
        ensures
            text@ == (match self@ {
                MemoView::Empty => "<empty memo>"@,
                MemoView::Text(t) => t,
                MemoView::Arbitrary(_) => "<511 bytes binary>"@,
            }),
    {
        match self {
            Memo::Empty => "<empty memo>".to_owned(),
            Memo::Text(text) => text.as_str().to_owned(),
            Memo::Arbitrary(_) => "<511 bytes binary>".to_owned(),
        }
    }
}

/// Zeros after a text change nothing.
pub proof fn law_padding_is_stripped(text: Seq<u8>, zeros: nat)
    ensures
        stripped(text + Seq::new(zeros, |i: int| 0u8)) == stripped(text),
    decreases zeros,
{
    let padded = text + Seq::new(zeros, |i: int| 0u8);
    if zeros == 0 {
        assert(padded =~= text);
    } else {
        law_padding_is_stripped(text, (zeros - 1) as nat);
        assert(padded.drop_last() =~= text + Seq::new((zeros - 1) as nat, |i: int| 0u8));
    }
}

/// Stripping takes zeros off the end, all of them, and nothing else.
pub proof fn law_stripping_takes_trailing_zeros(bytes: Seq<u8>)
    ensures
        ({
            let kept = stripped(bytes);
            &&& kept.len() <= bytes.len()
            &&& kept == bytes.take(kept.len() as int)
            &&& kept.len() > 0 ==> kept.last() != 0
            &&& forall|i: int| kept.len() <= i < bytes.len() ==> bytes[i] == 0
        }),
    decreases bytes.len(),
{
    if bytes.len() > 0 && bytes.last() == 0 {
        let init = bytes.drop_last();
        law_stripping_takes_trailing_zeros(init);
        let kept = stripped(init);
        assert(kept =~= bytes.take(kept.len() as int));
        assert forall|i: int| kept.len() <= i < bytes.len() implies bytes[i] == 0 by {
            if i < init.len() {
                assert(init[i] == 0);
            }
        }
    } else {
        assert(bytes.take(bytes.len() as int) =~= bytes);
    }
}

/// A memo is unset exactly where every byte is 0xFF. One that starts with 0xF4, or whose text
/// is not valid, is the bytes after the first; any other is its text.
pub proof fn law_memo_is_told_by_its_bytes(bytes: Seq<u8>)
    requires
        bytes.len() == 512,
    ensures
        memo_of(bytes) is Empty <==> forall|i: int| 0 <= i < 512 ==> bytes[i] == 0xFF,
        bytes[0] == 0xF4 ==> memo_of(bytes) == MemoView::Arbitrary(bytes.skip(1)),
        !(memo_of(bytes) is Empty) && bytes[0] != 0xF4 && valid_utf8(stripped(bytes)) ==> memo_of(
            bytes,
        ) == MemoView::Text(decode_utf8(stripped(bytes))),
        !(memo_of(bytes) is Empty) && !valid_utf8(stripped(bytes)) ==> memo_of(bytes)
            == MemoView::Arbitrary(bytes.skip(1)),
{
}

} // verus!
