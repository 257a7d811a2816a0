use attest_gate::registry::Contract;
use attest_gate::replay::replay_app_compose;
use attest_gate::Error;
use serde_json::Value;
use sha2::{Digest, Sha384};

const HASH: &str = "9f86d081884c7d659a2feaa0c55ad015a3bf4f1b2b0b822cd15d6c15b0f00a08";
const OWNER: &str = "owner.testnet";
const WORKER: &str = "worker.testnet";

fn collateral_doc() -> String {
    let mut m = serde_json::Map::new();
    m.insert("tcb_info_issuer_chain".into(), Value::from("chain-a"));
    m.insert("tcb_info".into(), Value::from("tcb"));
    m.insert("tcb_info_signature".into(), Value::from("00ff"));
    m.insert("qe_identity_issuer_chain".into(), Value::from("chain-b"));
    m.insert("qe_identity".into(), Value::from("qe"));
    m.insert("qe_identity_signature".into(), Value::from("a1b2"));
    Value::Object(m).to_string()
}

fn tcb_doc(app_compose: &str, compose_digest: &[u8]) -> String {
    let mut e = serde_json::Map::new();
    e.insert("imr".into(), Value::from(3u64));
    e.insert("event".into(), Value::from("compose-hash"));
    e.insert("digest".into(), Value::from(hex::encode(compose_digest)));
    let mut m = serde_json::Map::new();
    m.insert("app_compose".into(), Value::from(app_compose));
    m.insert("event_log".into(), Value::Array(vec![Value::Object(e)]));
    Value::Object(m).to_string()
}

/// A quote whose header declares the supported shape and whose body carries
/// the given register value and identity.
fn quote_hex(rtmr3: &[u8], identity: &str) -> String {
    let mut q = vec![0u8; 632];
    q[0] = 4; // version 4, little endian
    q[4] = 0x81; // TD report
    q[520..568].copy_from_slice(rtmr3);
    q[568..568 + identity.len()].copy_from_slice(identity.as_bytes());
    hex::encode(q)
}

/// A consistent evidence bundle for `identity` running the image `HASH`.
fn consistent_evidence(identity: &str) -> (String, String) {
    let app = format!("services:\n    image: org/worker:latest@sha256:{}\n", HASH);
    let compose_digest = hex::decode(replay_app_compose(&app)).unwrap();
    let mut h = Sha384::new();
    h.update([0u8; 48]);
    h.update(&compose_digest);
    let rtmr3 = h.finalize().to_vec();
    (tcb_doc(&app, &compose_digest), quote_hex(&rtmr3, identity))
}

fn owned_contract_with_approval() -> Contract {
    let mut c = Contract::init(OWNER.to_string());
    c.approve_codehash(&OWNER.to_string(), HASH.to_string()).unwrap();
    c
}

#[test]
fn init_sets_owner_and_defaults() {
    let c = Contract::init(OWNER.to_string());
    assert_eq!(c.get_owner(), OWNER);
    assert_eq!(c.get_mpc_contract(), "v1.signer-prod.testnet");
    assert!(c.get_approved_codehashes().is_empty());
    assert!(!c.is_worker_registered(&WORKER.to_string()));
}

#[test]
fn non_owner_cannot_approve_and_the_set_is_unchanged() {
    let mut c = Contract::init(OWNER.to_string());
    let r = c.approve_codehash(&WORKER.to_string(), HASH.to_string());
    assert_eq!(r.unwrap_err(), Error::Unauthorized);
    assert!(c.get_approved_codehashes().is_empty());
}

#[test]
fn non_owner_cannot_remove_and_the_set_is_unchanged() {
    let mut c = owned_contract_with_approval();
    let r = c.remove_codehash(&WORKER.to_string(), &HASH.to_string());
    assert_eq!(r.unwrap_err(), Error::Unauthorized);
    assert_eq!(c.get_approved_codehashes(), vec![HASH.to_string()]);
}

#[test]
fn owner_approves_and_removes_codehashes() {
    let mut c = Contract::init(OWNER.to_string());
    c.approve_codehash(&OWNER.to_string(), HASH.to_string()).unwrap();
    assert!(c.is_codehash_approved(&HASH.to_string()));
    assert_eq!(c.get_approved_codehashes(), vec![HASH.to_string()]);
    c.remove_codehash(&OWNER.to_string(), &HASH.to_string()).unwrap();
    assert!(!c.is_codehash_approved(&HASH.to_string()));
}

#[test]
fn malformed_codehash_is_not_approved() {
    let mut c = Contract::init(OWNER.to_string());
    let r = c.approve_codehash(&OWNER.to_string(), "SHORT".to_string());
    assert_eq!(r.unwrap_err(), Error::ManifestParseError);
}

#[test]
fn register_worker_end_to_end_then_revoke_denies_signing() {
    let mut c = owned_contract_with_approval();
    let (tcb, quote) = consistent_evidence(WORKER);
    let caller = WORKER.to_string();
    let ok = c
        .register_worker(&caller, &quote, &collateral_doc(), "sum".to_string(), &tcb, 7)
        .unwrap();
    assert!(ok);
    assert!(c.is_worker_registered(&caller));
    let w = c.get_worker(&caller).unwrap();
    assert_eq!(w.principal, WORKER);
    assert_eq!(w.codehash, HASH);
    assert_eq!(w.checksum, "sum");
    assert!(w.is_active);
    assert_eq!(w.registered_at, 7);

    let req = c
        .sign_tx(&caller, vec![1, 2, 3], "path".to_string(), 0)
        .unwrap();
    assert_eq!(req.payload, vec![1, 2, 3]);
    assert_eq!(req.derivation_path, "path");
    assert_eq!(req.key_version, 0);

    c.remove_codehash(&OWNER.to_string(), &HASH.to_string()).unwrap();
    let denied = c.sign_tx(&caller, vec![1], "path".to_string(), 0);
    assert_eq!(denied.unwrap_err(), Error::Unauthorized);
}

#[test]
fn register_worker_requires_an_attested_identity_match() {
    let mut c = owned_contract_with_approval();
    let (tcb, quote) = consistent_evidence("someone-else.testnet");
    let r = c.register_worker(
        &WORKER.to_string(),
        &quote,
        &collateral_doc(),
        "sum".to_string(),
        &tcb,
        7,
    );
    assert_eq!(r.unwrap_err(), Error::Unauthorized);
    assert!(!c.is_worker_registered(&WORKER.to_string()));
}

#[test]
fn register_worker_requires_an_approved_codehash() {
    let mut c = Contract::init(OWNER.to_string());
    let (tcb, quote) = consistent_evidence(WORKER);
    let r = c.register_worker(
        &WORKER.to_string(),
        &quote,
        &collateral_doc(),
        "sum".to_string(),
        &tcb,
        7,
    );
    assert_eq!(r.unwrap_err(), Error::Unauthorized);
}

#[test]
fn register_worker_rejects_malformed_collateral() {
    let mut c = owned_contract_with_approval();
    let (tcb, quote) = consistent_evidence(WORKER);
    let r = c.register_worker(
        &WORKER.to_string(),
        &quote,
        &"{}".to_string(),
        "sum".to_string(),
        &tcb,
        7,
    );
    assert_eq!(r.unwrap_err(), Error::MalformedCollateral);
}

#[test]
fn register_worker_rejects_an_undecodable_quote() {
    let mut c = owned_contract_with_approval();
    let (tcb, _) = consistent_evidence(WORKER);
    let r = c.register_worker(
        &WORKER.to_string(),
        &"zz".to_string(),
        &collateral_doc(),
        "sum".to_string(),
        &tcb,
        7,
    );
    assert_eq!(r.unwrap_err(), Error::VerificationFailure);

    let short = hex::encode(vec![0u8; 100]);
    let r = c.register_worker(
        &WORKER.to_string(),
        &short,
        &collateral_doc(),
        "sum".to_string(),
        &tcb,
        7,
    );
    assert_eq!(r.unwrap_err(), Error::VerificationFailure);
}

#[test]
fn register_worker_rejects_an_unsupported_report_shape() {
    let mut c = owned_contract_with_approval();
    let (tcb, quote) = consistent_evidence(WORKER);
    let mut q = hex::decode(&quote).unwrap();
    q[0] = 3; // an unsupported quote version
    let r = c.register_worker(
        &WORKER.to_string(),
        &hex::encode(q),
        &collateral_doc(),
        "sum".to_string(),
        &tcb,
        7,
    );
    assert_eq!(r.unwrap_err(), Error::UnsupportedReportType);
}

#[test]
fn register_worker_rejects_a_register_mismatch() {
    let mut c = owned_contract_with_approval();
    let (tcb, _) = consistent_evidence(WORKER);
    let quote = quote_hex(&[0u8; 48], WORKER);
    let r = c.register_worker(
        &WORKER.to_string(),
        &quote,
        &collateral_doc(),
        "sum".to_string(),
        &tcb,
        7,
    );
    assert_eq!(r.unwrap_err(), Error::IntegrityMismatch);
}

#[test]
fn reregistration_overwrites_the_record() {
    let mut c = owned_contract_with_approval();
    let (tcb, quote) = consistent_evidence(WORKER);
    let caller = WORKER.to_string();
    c.register_worker(&caller, &quote, &collateral_doc(), "one".to_string(), &tcb, 1)
        .unwrap();
    c.register_worker(&caller, &quote, &collateral_doc(), "two".to_string(), &tcb, 2)
        .unwrap();
    let w = c.get_worker(&caller).unwrap();
    assert_eq!(w.checksum, "two");
    assert_eq!(w.registered_at, 2);
}

#[test]
fn register_worker_dev_still_requires_approval() {
    let mut c = Contract::init(OWNER.to_string());
    let r = c.register_worker_dev(&WORKER.to_string(), HASH.to_string(), 3);
    assert_eq!(r.unwrap_err(), Error::Unauthorized);
    c.approve_codehash(&OWNER.to_string(), HASH.to_string()).unwrap();
    assert!(c.register_worker_dev(&WORKER.to_string(), HASH.to_string(), 3).unwrap());
    let w = c.get_worker(&WORKER.to_string()).unwrap();
    assert_eq!(w.checksum, "dev");
    assert_eq!(w.codehash, HASH);
}

#[test]
fn deactivated_worker_cannot_sign() {
    let mut c = owned_contract_with_approval();
    let caller = WORKER.to_string();
    c.register_worker_dev(&caller, HASH.to_string(), 3).unwrap();
    c.deactivate_worker(&caller).unwrap();
    assert!(!c.get_worker(&caller).unwrap().is_active);
    let r = c.sign_tx(&caller, vec![], "p".to_string(), 1);
    assert_eq!(r.unwrap_err(), Error::Unauthorized);
}

#[test]
fn deactivating_an_unknown_worker_is_not_found() {
    let mut c = Contract::init(OWNER.to_string());
    let r = c.deactivate_worker(&WORKER.to_string());
    assert_eq!(r.unwrap_err(), Error::NotFound);
}

#[test]
fn unregistered_caller_cannot_sign_or_dispatch() {
    let mut c = owned_contract_with_approval();
    let caller = WORKER.to_string();
    let r = c.sign_tx(&caller, vec![], "p".to_string(), 1);
    assert_eq!(r.unwrap_err(), Error::Unauthorized);
    let r = c.record_dispatch(&caller, "r1".to_string(), "c1".to_string(), "f1".to_string(), 9);
    assert_eq!(r.unwrap_err(), Error::Unauthorized);
}

#[test]
fn dispatch_records_accumulate_per_asset() {
    let mut c = owned_contract_with_approval();
    let caller = WORKER.to_string();
    c.register_worker_dev(&caller, HASH.to_string(), 3).unwrap();
    c.record_dispatch(&caller, "r1".to_string(), "c1".to_string(), "f1".to_string(), 9)
        .unwrap();
    c.record_dispatch(&caller, "r2".to_string(), "c2".to_string(), "f2".to_string(), 10)
        .unwrap();
    c.record_dispatch(&caller, "r1".to_string(), "c3".to_string(), "f3".to_string(), 11)
        .unwrap();
    let r1 = c.get_rta_dispatches(&"r1".to_string());
    assert_eq!(r1.len(), 2);
    assert_eq!(r1[0].chunk_id, "c1");
    assert_eq!(r1[0].timestamp, 9);
    assert_eq!(r1[1].chunk_id, "c3");
    let r2 = c.get_rta_dispatches(&"r2".to_string());
    assert_eq!(r2.len(), 1);
    assert_eq!(r2[0].filecoin_cid, "f2");
    assert!(c.get_rta_dispatches(&"r3".to_string()).is_empty());
}

#[test]
fn vrf_proofs_are_gated_on_registration() {
    let mut c = owned_contract_with_approval();
    let caller = WORKER.to_string();
    let r = c.submit_vrf_proof(&caller, &vec![1], &"proof".to_string());
    assert_eq!(r.unwrap_err(), Error::Unauthorized);
    c.register_worker_dev(&caller, HASH.to_string(), 3).unwrap();
    assert!(c.submit_vrf_proof(&caller, &vec![1], &"proof".to_string()).is_ok());
}

#[test]
fn only_the_owner_can_repoint_the_signer() {
    let mut c = Contract::init(OWNER.to_string());
    let r = c.set_mpc_contract(&WORKER.to_string(), "x.testnet".to_string());
    assert_eq!(r.unwrap_err(), Error::Unauthorized);
    c.set_mpc_contract(&OWNER.to_string(), "x.testnet".to_string()).unwrap();
    assert_eq!(c.get_mpc_contract(), "x.testnet");
}
