//! Transparent locking scripts.

use seer_sync::address::{parse_script, ScriptType};

#[test]
fn p2pkh_round_trip() {
    let hash = [0xABu8; 20];
    let mut script = [0u8; 25];
    script[0] = 0x76;
    script[1] = 0xa9;
    script[2] = 0x14;
    script[3..23].copy_from_slice(&hash);
    script[23] = 0x88;
    script[24] = 0xac;
    assert_eq!(parse_script(&script), Some((ScriptType::P2pkh, hash)));
}

#[test]
fn p2sh_round_trip() {
    let hash = [0xCDu8; 20];
    let mut script = [0u8; 23];
    script[0] = 0xa9;
    script[1] = 0x14;
    script[2..22].copy_from_slice(&hash);
    script[22] = 0x87;
    assert_eq!(parse_script(&script), Some((ScriptType::P2sh, hash)));
}

#[test]
fn unknown_script_returns_none() {
    assert_eq!(parse_script(&[0x51, 0x52]), None);
    assert_eq!(parse_script(&[]), None);
}

#[test]
fn a_wrong_opcode_is_not_recognized() {
    let mut script = [0u8; 25];
    script[0] = 0x76;
    script[1] = 0xa9;
    script[2] = 0x14;
    script[23] = 0x88;
    script[24] = 0xad;
    assert_eq!(parse_script(&script), None);
}

#[test]
fn one_byte_too_many_is_not_recognized() {
    let mut script = vec![0u8; 24];
    script[0] = 0xa9;
    script[1] = 0x14;
    script[22] = 0x87;
    assert_eq!(parse_script(&script), None);
}
