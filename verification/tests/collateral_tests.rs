use attest_gate::collateral::{decode_tcb_info, get_collateral, verify_codehash};
use attest_gate::replay::replay_app_compose;
use attest_gate::Error;
use serde_json::Value;
use sha2::{Digest, Sha384};

const HASH: &str = "9f86d081884c7d659a2feaa0c55ad015a3bf4f1b2b0b822cd15d6c15b0f00a08";

fn collateral_doc() -> String {
    let mut m = serde_json::Map::new();
    m.insert("tcb_info_issuer_chain".into(), Value::from("chain-a"));
    m.insert("tcb_info".into(), Value::from("{\"id\":\"TDX\"}"));
    m.insert("tcb_info_signature".into(), Value::from("00ff10"));
    m.insert("qe_identity_issuer_chain".into(), Value::from("chain-b"));
    m.insert("qe_identity".into(), Value::from("{\"id\":\"QE\"}"));
    m.insert("qe_identity_signature".into(), Value::from("a1b2"));
    Value::Object(m).to_string()
}

fn event(imr: u64, name: &str, digest_hex: &str) -> Value {
    let mut e = serde_json::Map::new();
    e.insert("imr".into(), Value::from(imr));
    e.insert("event".into(), Value::from(name));
    e.insert("digest".into(), Value::from(digest_hex));
    Value::Object(e)
}

fn tcb_doc(app_compose: &str, events: Vec<Value>) -> String {
    let mut m = serde_json::Map::new();
    m.insert("app_compose".into(), Value::from(app_compose));
    m.insert("event_log".into(), Value::Array(events));
    Value::Object(m).to_string()
}

fn replayed_rtmr3(digests: &[Vec<u8>]) -> String {
    let mut reg = vec![0u8; 48];
    for d in digests {
        let mut h = Sha384::new();
        h.update(&reg);
        h.update(d);
        reg = h.finalize().to_vec();
    }
    hex::encode(reg)
}

#[test]
fn well_formed_collateral_decodes() {
    let c = get_collateral(&collateral_doc()).unwrap();
    assert_eq!(c.tcb_info_issuer_chain, "chain-a");
    assert_eq!(c.tcb_info, "{\"id\":\"TDX\"}");
    assert_eq!(c.tcb_info_signature, hex::decode("00ff10").unwrap());
    assert_eq!(c.qe_identity_issuer_chain, "chain-b");
    assert_eq!(c.qe_identity, "{\"id\":\"QE\"}");
    assert_eq!(c.qe_identity_signature, hex::decode("a1b2").unwrap());
}

#[test]
fn collateral_with_missing_field_is_refused() {
    let mut v: Value = serde_json::from_str(&collateral_doc()).unwrap();
    v.as_object_mut().unwrap().remove("qe_identity");
    assert_eq!(
        get_collateral(&v.to_string()).unwrap_err(),
        Error::MalformedCollateral
    );
}

#[test]
fn collateral_with_bad_hex_signature_is_refused() {
    let mut v: Value = serde_json::from_str(&collateral_doc()).unwrap();
    v.as_object_mut()
        .unwrap()
        .insert("tcb_info_signature".into(), Value::from("not-hex"));
    assert_eq!(
        get_collateral(&v.to_string()).unwrap_err(),
        Error::MalformedCollateral
    );
}

#[test]
fn collateral_that_is_not_json_is_refused() {
    assert_eq!(
        get_collateral("not json at all").unwrap_err(),
        Error::MalformedCollateral
    );
}

#[test]
fn tcb_info_decodes_events_in_order() {
    let doc = tcb_doc(
        "app",
        vec![
            event(3, "one", &hex::encode([0x11u8; 48])),
            event(1, "two", &hex::encode([0x22u8; 48])),
        ],
    );
    let t = decode_tcb_info(&doc).unwrap();
    assert_eq!(t.app_compose, "app");
    assert_eq!(t.event_log.len(), 2);
    assert_eq!(t.event_log[0].imr, 3);
    assert_eq!(t.event_log[0].event, "one");
    assert_eq!(t.event_log[0].digest, vec![0x11u8; 48]);
    assert_eq!(t.event_log[1].imr, 1);
}

#[test]
fn tcb_info_with_oversized_register_index_is_refused() {
    let doc = tcb_doc("app", vec![event(256, "one", &hex::encode([0u8; 48]))]);
    assert_eq!(decode_tcb_info(&doc).unwrap_err(), Error::MalformedCollateral);
}

#[test]
fn tcb_info_with_short_digest_is_refused() {
    let doc = tcb_doc("app", vec![event(3, "one", &hex::encode([0u8; 47]))]);
    assert_eq!(decode_tcb_info(&doc).unwrap_err(), Error::MalformedCollateral);
}

#[test]
fn verify_codehash_accepts_a_consistent_bundle() {
    let app = format!("services:\n    image: org/worker@sha256:{}\n", HASH);
    let compose_digest = hex::decode(replay_app_compose(&app)).unwrap();
    let doc = tcb_doc(
        &app,
        vec![event(3, "compose-hash", &hex::encode(&compose_digest))],
    );
    let rtmr3 = replayed_rtmr3(&[compose_digest]);
    assert_eq!(verify_codehash(&doc, &rtmr3).unwrap(), HASH);
}

#[test]
fn verify_codehash_requires_the_compose_hash_event() {
    let app = format!("services:\n    image: org/worker@sha256:{}\n", HASH);
    let compose_digest = hex::decode(replay_app_compose(&app)).unwrap();
    let doc = tcb_doc(&app, vec![event(3, "boot", &hex::encode(&compose_digest))]);
    let rtmr3 = replayed_rtmr3(&[compose_digest]);
    assert_eq!(
        verify_codehash(&doc, &rtmr3).unwrap_err(),
        Error::IntegrityMismatch
    );
}

#[test]
fn verify_codehash_rejects_a_substituted_manifest() {
    let app = format!("services:\n    image: org/worker@sha256:{}\n", HASH);
    let other = "something else entirely";
    let claimed = hex::decode(replay_app_compose(other)).unwrap();
    let doc = tcb_doc(&app, vec![event(3, "compose-hash", &hex::encode(&claimed))]);
    let rtmr3 = replayed_rtmr3(&[claimed]);
    assert_eq!(
        verify_codehash(&doc, &rtmr3).unwrap_err(),
        Error::IntegrityMismatch
    );
}

#[test]
fn verify_codehash_rejects_a_register_mismatch() {
    let app = format!("services:\n    image: org/worker@sha256:{}\n", HASH);
    let compose_digest = hex::decode(replay_app_compose(&app)).unwrap();
    let doc = tcb_doc(
        &app,
        vec![event(3, "compose-hash", &hex::encode(&compose_digest))],
    );
    let wrong_rtmr3 = hex::encode([0u8; 48]);
    assert_eq!(
        verify_codehash(&doc, &wrong_rtmr3).unwrap_err(),
        Error::IntegrityMismatch
    );
}

#[test]
fn verify_codehash_rejects_a_malformed_document() {
    assert_eq!(
        verify_codehash("{}", &hex::encode([0u8; 48])).unwrap_err(),
        Error::MalformedCollateral
    );
}

#[test]
fn verify_codehash_reports_a_bad_manifest_after_the_digests_match() {
    let app = "services:\n    image: org/worker:latest\n";
    let compose_digest = hex::decode(replay_app_compose(app)).unwrap();
    let doc = tcb_doc(
        app,
        vec![event(3, "compose-hash", &hex::encode(&compose_digest))],
    );
    let rtmr3 = replayed_rtmr3(&[compose_digest]);
    assert_eq!(
        verify_codehash(&doc, &rtmr3).unwrap_err(),
        Error::ManifestParseError
    );
}
