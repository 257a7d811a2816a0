use attest_gate::rta::{RTAConfig, RTAv2, RtaError};

const BASE: u128 = 10_000_000_000_000_000_000_000;
const SURCHARGE: u128 = 5_000_000_000_000_000_000_000;

fn config(mode: &str, filecoin: bool, tickets: Option<u32>) -> RTAConfig {
    RTAConfig {
        mode: mode.to_string(),
        store_to_filecoin: filecoin,
        distance: None,
        ticket_amount: tickets,
        ticket_price: None,
        pay_per_stream: false,
        stream_price: None,
        creator: "creator.testnet".to_string(),
        created_at: 5,
    }
}

fn factory_with_rta(id: &str) -> RTAv2 {
    let mut f = RTAv2::new("owner.testnet".to_string());
    f.create_rta(id.to_string(), config("solo", false, None), BASE).unwrap();
    f
}

#[test]
fn minimum_deposit_adds_surcharges() {
    let f = RTAv2::new("owner.testnet".to_string());
    assert_eq!(f.calculate_minimum_deposit(&config("solo", false, None)), BASE);
    assert_eq!(
        f.calculate_minimum_deposit(&config("solo", true, None)),
        BASE + SURCHARGE
    );
    assert_eq!(
        f.calculate_minimum_deposit(&config("group", true, Some(11))),
        BASE + 2 * SURCHARGE
    );
    assert_eq!(
        f.calculate_minimum_deposit(&config("group", false, Some(10))),
        BASE
    );
}

#[test]
fn create_rta_requires_the_deposit() {
    let mut f = RTAv2::new("owner.testnet".to_string());
    let r = f.create_rta("one".to_string(), config("solo", false, None), BASE - 1);
    assert_eq!(r.unwrap_err(), RtaError::InsufficientDeposit);
    assert!(f.get_rta_metadata(&"one".to_string()).is_none());
}

#[test]
fn create_rta_initializes_the_metadata() {
    let f = factory_with_rta("one");
    let m = f.get_rta_metadata(&"one".to_string()).unwrap();
    assert_eq!(m.rta_id, "one");
    assert!(!m.is_live);
    assert!(!m.is_closed);
    assert!(m.chunk_cids.is_empty());
    assert!(m.chunk_ownership.is_empty());
    assert_eq!(m.total_chunks, 0);
    assert!(m.filecoin_master_cid.is_none());
}

#[test]
fn duplicate_asset_identifiers_are_refused() {
    let mut f = factory_with_rta("one");
    let r = f.create_rta("one".to_string(), config("solo", false, None), BASE);
    assert_eq!(r.unwrap_err(), RtaError::AlreadyExists);
}

#[test]
fn delegation_is_parsed_from_permission_words() {
    let mut f = factory_with_rta("one");
    f.delegate_rta_permissions(
        "one".to_string(),
        "delegate.testnet".to_string(),
        &vec!["update_chunks".to_string()],
    );
    assert!(f.check_delegation(&"one".to_string(), &"delegate.testnet".to_string()));
    assert!(!f.check_delegation(&"one".to_string(), &"other.testnet".to_string()));
    assert!(!f.check_delegation(&"two".to_string(), &"delegate.testnet".to_string()));
}

#[test]
fn add_cids_requires_the_update_permission() {
    let mut f = factory_with_rta("one");
    let caller = "delegate.testnet".to_string();
    let cids = vec!["cid-a".to_string()];
    let r = f.add_cids(&caller, &"one".to_string(), &cids, &vec![]);
    assert_eq!(r.unwrap_err(), RtaError::NotFound);
    f.delegate_rta_permissions("one".to_string(), caller.clone(), &vec![
        "finalize_rta".to_string(),
    ]);
    let r = f.add_cids(&caller, &"one".to_string(), &cids, &vec![]);
    assert_eq!(r.unwrap_err(), RtaError::Unauthorized);
}

#[test]
fn add_cids_appends_chunks_and_ownership() {
    let mut f = factory_with_rta("one");
    let caller = "delegate.testnet".to_string();
    f.delegate_rta_permissions("one".to_string(), caller.clone(), &vec![
        "update_chunks".to_string(),
        "finalize_rta".to_string(),
    ]);
    f.add_cids(
        &caller,
        &"one".to_string(),
        &vec!["cid-a".to_string(), "cid-b".to_string()],
        &vec!["alice.testnet".to_string()],
    )
    .unwrap();
    let m = f.get_rta_metadata(&"one".to_string()).unwrap();
    assert_eq!(m.chunk_cids, vec!["cid-a".to_string(), "cid-b".to_string()]);
    assert_eq!(m.total_chunks, 2);
    assert_eq!(m.chunk_ownership.len(), 1);
    assert_eq!(m.chunk_ownership[0].chunk_index, 1);
    assert_eq!(m.chunk_ownership[0].owner, "alice.testnet");

    f.add_cids(&caller, &"one".to_string(), &vec!["cid-c".to_string()], &vec![
        "bob.testnet".to_string(),
    ])
    .unwrap();
    let m = f.get_rta_metadata(&"one".to_string()).unwrap();
    assert_eq!(m.total_chunks, 3);
    assert_eq!(m.chunk_ownership[1].chunk_index, 3);
    assert_eq!(m.chunk_ownership[1].owner, "bob.testnet");
}

#[test]
fn finalize_closes_the_asset_and_records_the_master_cid() {
    let mut f = factory_with_rta("one");
    let caller = "delegate.testnet".to_string();
    f.delegate_rta_permissions("one".to_string(), caller.clone(), &vec![
        "update_chunks".to_string(),
        "finalize_rta".to_string(),
    ]);
    assert!(!f.is_closed(&"one".to_string()));
    f.finalize(&caller, &"one".to_string(), "master-cid".to_string()).unwrap();
    assert!(f.is_closed(&"one".to_string()));
    let m = f.get_rta_metadata(&"one".to_string()).unwrap();
    assert_eq!(m.filecoin_master_cid.as_deref(), Some("master-cid"));

    let r = f.add_cids(&caller, &"one".to_string(), &vec!["cid-z".to_string()], &vec![]);
    assert_eq!(r.unwrap_err(), RtaError::Closed);
    let r = f.finalize(&caller, &"one".to_string(), "again".to_string());
    assert_eq!(r.unwrap_err(), RtaError::Closed);
}

#[test]
fn missing_asset_is_not_found() {
    let mut f = RTAv2::new("owner.testnet".to_string());
    let caller = "delegate.testnet".to_string();
    f.delegate_rta_permissions("ghost".to_string(), caller.clone(), &vec![
        "update_chunks".to_string(),
        "finalize_rta".to_string(),
    ]);
    let r = f.add_cids(&caller, &"ghost".to_string(), &vec!["c".to_string()], &vec![]);
    assert_eq!(r.unwrap_err(), RtaError::NotFound);
    let r = f.finalize(&caller, &"ghost".to_string(), "m".to_string());
    assert_eq!(r.unwrap_err(), RtaError::NotFound);
    assert!(!f.is_closed(&"ghost".to_string()));
}
