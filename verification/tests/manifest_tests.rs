use std::collections::BTreeMap;

use greentic_operator::discovery::{
    manifest_pack_id_for_discovery, PackManifestForDiscovery, PackMetaForDiscovery,
};

fn cbor_map(pairs: &[(&str, &str)]) -> Vec<u8> {
    let map: BTreeMap<String, String> =
        pairs.iter().map(|(k, v)| (k.to_string(), v.to_string())).collect();
    serde_cbor::to_vec(&map).expect("encode")
}

fn json_manifest(meta: Option<&str>, pack_id: Option<&str>) -> PackManifestForDiscovery {
    PackManifestForDiscovery {
        meta: meta.map(|id| PackMetaForDiscovery { pack_id: id.to_string() }),
        pack_id: pack_id.map(str::to_string),
    }
}

#[test]
fn cbor_manifest_names_the_pack() {
    let bytes = cbor_map(&[("pack_id", "messaging-telegram")]);
    assert_eq!(
        manifest_pack_id_for_discovery(Some(&bytes), None, true, "p.gtpack"),
        Ok(Some("messaging-telegram".to_string()))
    );
    assert_eq!(
        manifest_pack_id_for_discovery(Some(&bytes), Some(json_manifest(Some("other"), None)), false, "p.gtpack"),
        Ok(Some("messaging-telegram".to_string()))
    );
}

#[test]
fn undecodable_cbor_is_an_error() {
    let err = manifest_pack_id_for_discovery(Some(&[0xff, 0x00, 0x13]), None, false, "p.gtpack")
        .unwrap_err();
    assert!(err.starts_with("failed to decode manifest.cbor in p.gtpack: "), "{err}");
}

#[test]
fn cbor_only_packs_without_cbor_id_are_refused() {
    let bytes = cbor_map(&[("name", "x")]);
    let err = manifest_pack_id_for_discovery(Some(&bytes), None, true, "p.gtpack").unwrap_err();
    assert!(err.starts_with("ERROR: demo packs must be CBOR-only"), "{err}");
    assert!(err.ends_with("Missing in p.gtpack"), "{err}");
    assert!(manifest_pack_id_for_discovery(None, Some(json_manifest(None, Some("j"))), true, "q").is_err());
}

#[test]
fn json_manifest_is_the_fallback() {
    assert_eq!(
        manifest_pack_id_for_discovery(None, Some(json_manifest(Some("meta-id"), Some("id"))), false, "q"),
        Ok(Some("meta-id".to_string()))
    );
    assert_eq!(
        manifest_pack_id_for_discovery(None, Some(json_manifest(None, Some("id"))), false, "q"),
        Ok(Some("id".to_string()))
    );
    assert_eq!(manifest_pack_id_for_discovery(None, None, false, "q"), Ok(None));
}
