//! Viewing keys.

use seer_sync::key::ViewKey;
use seer_sync::keys::fvk::FvkKeys;
use seer_sync::keys::ivk::IvkKeys;
use seer_sync::keys::ovk::OvkKeys;
use seer_sync::keys::{decode, strip_whitespace};
use seer_sync::sync::decrypt::ScanningKeys;
use seer_sync::Network;

const UFVK: &str = "uview1hzzcqccht7226cqmwfxvesey863wzugkdckl4ecyrpy6pmzteum4x75p8gsqqeghfg0ngkhafvjkgzq6u3d2chf9nxlxqldtpfce80renlet8nw6zvkmkt7v2xqf203t63jufh7640kheemmq89u5gha6w6vvjs93gcae7tcswl9glfjwc80afw86y794cuq0rk8mqyylrguq3wcere2lwv4clhxdc76c79et846p6pv69qw40pxjpu8vywwkg440mp46ed97ytcvumj5lzvqf0n3fv7nfze22me7rh07rtzgr6grh3ra6rq9lgcsstvfh7c70nukklnz7a45eauxj70px6tjquklmh7ayryw205zzp7uuxemm4qd8awxc6vsc0l4dc77v5tg";

fn uivk_text() -> String {
    let network = zcash_protocol::consensus::Network::MainNetwork;
    let ufvk = zcash_keys::keys::UnifiedFullViewingKey::decode(&network, UFVK).unwrap();
    ufvk.to_unified_incoming_viewing_key().encode(&network).unwrap()
}

#[test]
fn ufvk_has_full_capability() {
    let key = ViewKey::decode(Network::MainNetwork, UFVK).expect("decode UFVK");

    assert_eq!(key.sapling.len(), 2, "external + internal scopes");
    assert_eq!(key.orchard.len(), 2);
    assert!(key.sapling.iter().all(|s| s.nk.is_some()));
    assert!(key.orchard.iter().all(|o| o.fvk.is_some()));
    assert!(!key.sapling_ovks.is_empty());
    assert!(!key.orchard_ovks.is_empty());
    assert!(
        key.transparent.is_none(),
        "this UFVK carries no transparent component"
    );
}

#[test]
fn uivk_is_incoming_only() {
    let key = ViewKey::decode(Network::MainNetwork, &uivk_text()).expect("decode UIVK");

    assert_eq!(key.sapling.len(), 1, "UIVK carries a single incoming key");
    assert_eq!(key.orchard.len(), 1);
    assert!(key.sapling.iter().all(|s| s.nk.is_none()));
    assert!(key.orchard.iter().all(|o| o.fvk.is_none()));
    assert!(key.sapling_ovks.is_empty());
    assert!(key.orchard_ovks.is_empty());
}

#[test]
fn rejects_non_viewing_key() {
    let err = match ViewKey::decode(Network::MainNetwork, "not-a-key") {
        Ok(_) => panic!("expected a decode error"),
        Err(e) => e,
    };
    let err = err.to_text();
    assert!(err.contains("UFVK") && err.contains("UIVK"), "got: {err}");
}

#[test]
fn only_a_full_key_derives_nullifiers() {
    let full = ViewKey::decode(Network::MainNetwork, UFVK).unwrap();
    let incoming = ViewKey::decode(Network::MainNetwork, &uivk_text()).unwrap();
    assert!(full.can_derive_nullifiers());
    assert!(!incoming.can_derive_nullifiers());
}

#[test]
fn a_key_of_another_network_is_refused() {
    assert!(ViewKey::decode(Network::TestNetwork, UFVK).is_err());
}

#[test]
fn white_space_around_a_key_is_ignored() {
    let spaced = format!("  {}\n {}\t", &UFVK[..40], &UFVK[40..]);
    assert!(decode(Network::MainNetwork, &spaced).is_ok());
    assert!(decode(Network::MainNetwork, "uview1nonsense").is_err());
}

#[test]
fn the_two_scopes_have_different_keys() {
    let ufvk = decode(Network::MainNetwork, UFVK).unwrap();
    let keys = ScanningKeys::from_ufvk(&ufvk);
    assert_eq!(keys.sapling.len(), 2);
    assert_eq!(keys.orchard.len(), 2);
    assert!(keys.sapling[0].ovk.unwrap() != keys.sapling[1].ovk.unwrap());
    assert!(keys.orchard[0].ovk.unwrap() != keys.orchard[1].ovk.unwrap());
    let ufvk = zcash_keys::keys::UnifiedFullViewingKey::decode(
        &zcash_protocol::consensus::Network::MainNetwork,
        UFVK,
    )
    .unwrap();
    assert_eq!(
        keys.sapling[0].ovk.unwrap(),
        ufvk.sapling().unwrap().to_ovk(zip32::Scope::External).0
    );
    assert_eq!(
        &keys.orchard[1].ovk.unwrap(),
        ufvk.orchard().unwrap().to_ovk(zip32::Scope::Internal).as_ref()
    );
}

#[test]
fn keys_by_capability() {
    let ufvk = decode(Network::MainNetwork, UFVK).unwrap();
    let fvk = FvkKeys::from_ufvk(&ufvk);
    assert!(!fvk.is_empty());
    assert!(fvk.orchard_fvk.is_some() && fvk.sapling_dfvk.is_some());
    let ovk = OvkKeys::from_fvk_keys(&fvk);
    assert!(!ovk.is_empty());
    assert!(OvkKeys::new(None, None).is_empty());
    let uivk = seer_sync::upstream::unified_keys::UnifiedIncomingViewingKey::decode(
        Network::MainNetwork,
        &uivk_text(),
    );
    let ivk = IvkKeys::from_uivk(&uivk.unwrap());
    assert!(!ivk.is_empty());
}

#[test]
fn white_space_is_stripped_and_nothing_else() {
    let white: Vec<char> = (0x9u32..=0xd)
        .chain([0x20, 0x85, 0xa0, 0x1680])
        .chain(0x2000..=0x200a)
        .chain([0x2028, 0x2029, 0x202f, 0x205f, 0x3000])
        .filter_map(char::from_u32)
        .collect();
    assert_eq!(white.len(), 25);
    for c in (0..=0x10ffff).filter_map(char::from_u32) {
        let text = format!("a{c}b");
        let kept = if white.contains(&c) { "ab".to_string() } else { text.clone() };
        assert_eq!(strip_whitespace(&text), kept);
    }
}
