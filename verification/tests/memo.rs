//! Memo fields.

use seer_sync::memo::Memo;

fn bytes_with(prefix: &[u8]) -> [u8; 512] {
    let mut b = [0u8; 512];
    b[..prefix.len()].copy_from_slice(prefix);
    b
}

#[test]
fn all_ff_is_empty() {
    assert_eq!(Memo::from_bytes(&[0xFF; 512]), Memo::Empty);
}

#[test]
fn text_memo_stripped() {
    let raw = bytes_with(b"hello");
    assert_eq!(Memo::from_bytes(&raw), Memo::Text("hello".into()));
}

#[test]
fn all_zeros_is_empty_string() {
    assert_eq!(Memo::from_bytes(&[0u8; 512]), Memo::Text("".into()));
}

#[test]
fn arbitrary_prefix() {
    let mut raw = [0u8; 512];
    raw[0] = 0xF4;
    raw[1] = 0xDE;
    raw[2] = 0xAD;
    let Memo::Arbitrary(data) = Memo::from_bytes(&raw) else {
        panic!()
    };
    assert_eq!(data[0], 0xDE);
    assert_eq!(data[1], 0xAD);
    assert_eq!(data[2], 0x00);
}

#[test]
fn display() {
    assert_eq!(Memo::Empty.to_text(), "<empty memo>");
    assert_eq!(Memo::Text("hi".into()).to_text(), "hi");
}

#[test]
fn display_of_binary_data_tells_its_length() {
    assert_eq!(
        Memo::Arbitrary(Box::new([0u8; 511])).to_text(),
        "<511 bytes binary>"
    );
}

#[test]
fn text_that_is_not_utf8_is_kept_as_binary() {
    let raw = bytes_with(&[0x61, 0xC3, 0x28]);
    let Memo::Arbitrary(data) = Memo::from_bytes(&raw) else {
        panic!()
    };
    assert_eq!(&data[..3], &[0xC3, 0x28, 0x00]);
}

#[test]
fn first_byte_alone_does_not_mark_an_empty_memo() {
    let raw = bytes_with(&[0xFF, 0x01]);
    let Memo::Arbitrary(data) = Memo::from_bytes(&raw) else {
        panic!()
    };
    assert_eq!(&data[..2], &[0x01, 0x00]);
    let mut raw = [0xFF; 512];
    raw[511] = 0xFE;
    assert!(!Memo::from_bytes(&raw).is_empty());
}

#[test]
fn zeros_inside_a_text_stay() {
    let raw = bytes_with(b"a\0b");
    assert_eq!(Memo::from_bytes(&raw).as_text(), Some("a\0b"));
}

#[test]
fn multi_byte_text_is_decoded() {
    let raw = bytes_with(&[0x7A, 0xC4, 0x87]);
    assert_eq!(Memo::from_bytes(&raw).as_text(), Some("z\u{107}"));
}

#[test]
fn only_text_memos_have_text() {
    assert_eq!(Memo::Empty.as_text(), None);
    assert_eq!(Memo::Arbitrary(Box::new([1u8; 511])).as_text(), None);
    assert!(!Memo::Text(String::new()).is_empty());
}
