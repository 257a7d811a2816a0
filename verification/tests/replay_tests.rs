use attest_gate::hexcode::{decode_hex, encode_hex};
use attest_gate::replay::{replay_app_compose, replay_rtmr, EventLogEntry};
use sha2::{Digest, Sha256, Sha384};

fn sha384_cat(a: &[u8], b: &[u8]) -> Vec<u8> {
    let mut h = Sha384::new();
    h.update(a);
    h.update(b);
    h.finalize().to_vec()
}

fn entry(imr: u8, event: &str, digest: Vec<u8>) -> EventLogEntry {
    EventLogEntry {
        imr,
        event: event.to_string(),
        digest,
    }
}

#[test]
fn hex_roundtrip_agrees_with_reference() {
    let bytes: Vec<u8> = vec![0x00, 0x01, 0x7f, 0x80, 0xff, 0x3a];
    let ours = encode_hex(&bytes);
    assert_eq!(ours, hex::encode(&bytes));
    let back = decode_hex(&ours).unwrap();
    assert_eq!(back, bytes);
}

#[test]
fn hex_decode_rejects_bad_input() {
    assert!(decode_hex("zz").is_none());
    assert!(decode_hex("abc").is_none());
    assert!(decode_hex("AB").is_none(), "uppercase is not accepted");
    assert_eq!(decode_hex("").unwrap(), Vec::<u8>::new());
}

#[test]
fn replay_empty_log_is_zero_register() {
    let log: Vec<EventLogEntry> = Vec::new();
    assert_eq!(replay_rtmr(&log, 3), hex::encode([0u8; 48]));
}

#[test]
fn replay_register_is_deterministic() {
    let d1 = vec![0x11u8; 48];
    let d2 = vec![0x22u8; 48];
    let log1 = vec![entry(3, "a", d1.clone()), entry(3, "b", d2.clone())];
    let log2 = vec![entry(3, "a", d1), entry(3, "b", d2)];
    assert_eq!(replay_rtmr(&log1, 3), replay_rtmr(&log2, 3));
    assert_eq!(
        replay_app_compose("services: none"),
        replay_app_compose("services: none")
    );
}

#[test]
fn replay_register_chains_in_log_order_and_skips_other_registers() {
    let d1 = vec![0x11u8; 48];
    let d2 = vec![0x22u8; 48];
    let d3 = vec![0x33u8; 48];
    let log = vec![
        entry(3, "a", d1.clone()),
        entry(3, "b", d2.clone()),
        entry(1, "c", d3.clone()),
    ];
    let expected = sha384_cat(&sha384_cat(&[0u8; 48], &d1), &d2);
    assert_eq!(replay_rtmr(&log, 3), hex::encode(&expected));

    // The register-1 entry has no effect on register 3.
    let log_without = vec![entry(3, "a", d1.clone()), entry(3, "b", d2.clone())];
    assert_eq!(replay_rtmr(&log_without, 3), hex::encode(&expected));

    // Reversing the two register-3 entries changes the result.
    let reversed = vec![entry(3, "b", d2), entry(3, "a", d1)];
    assert_ne!(replay_rtmr(&reversed, 3), hex::encode(&expected));
}

#[test]
fn compose_hash_reproduces_the_framed_digest() {
    let app = "services:\n  worker:\n    image: org/worker:latest";
    let h1 = Sha256::digest(app.as_bytes());
    let mut h = Sha384::new();
    h.update([0x01, 0x00, 0x00, 0x08]);
    h.update(b":");
    h.update(b"compose-hash");
    h.update(b":");
    h.update(h1);
    let expected = hex::encode(h.finalize());
    assert_eq!(replay_app_compose(app), expected);
}

#[test]
fn compose_hash_distinguishes_manifests() {
    assert_ne!(replay_app_compose("a"), replay_app_compose("b"));
    assert_ne!(replay_app_compose(""), replay_app_compose("a"));
}
