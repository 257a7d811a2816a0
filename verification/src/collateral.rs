//! Evidence decoding and the codehash integrity gate. Both document types
//! cross one typed decode-and-validate boundary: a malformed document is
//! rejected before any field is used. `verify_codehash` then replays the
//! measurement chain and releases a codehash only when every independent
//! check agrees.

use vstd::prelude::*;
use vstd::string::StrSliceExecFns;
use crate::Error;
use crate::hexcode::{hex_decode, hex_encode, is_hex_seq, decode_hex, encode_hex};
use crate::jsondoc::{
    json_str_field, json_array_len, json_array_str_field, json_array_u64_field,
    get_json_str_field, get_json_array_len, get_json_array_str_field, get_json_array_u64_field,
};
use crate::replay::{
    EventLogEntry, EventView, log_view, spec_replay_rtmr, spec_compose_hash, replay_rtmr_bytes,
    compose_hash_bytes,
};
use crate::extract::{spec_extract_codehash, extract_codehash};

verus! {

/// Structured evidence: issuer chains, the TCB-info and quoting-enclave
/// identity documents, and their two signatures.
#[derive(Debug)]
pub struct QuoteCollateralV3 {
    pub tcb_info_issuer_chain: String,
    pub tcb_info: String,
    pub tcb_info_signature: Vec<u8>,
    pub qe_identity_issuer_chain: String,
    pub qe_identity: String,
    pub qe_identity_signature: Vec<u8>,
}

#[verifier::ext_equal]
pub ghost struct CollateralView {
    pub tcb_info_issuer_chain: Seq<char>,
    pub tcb_info: Seq<char>,
    pub tcb_info_signature: Seq<u8>,
    pub qe_identity_issuer_chain: Seq<char>,
    pub qe_identity: Seq<char>,
    pub qe_identity_signature: Seq<u8>,
}

impl View for QuoteCollateralV3 {
    type V = CollateralView;

    open spec fn view(&self) -> CollateralView {
        CollateralView {
            tcb_info_issuer_chain: self.tcb_info_issuer_chain@,
            tcb_info: self.tcb_info@,
            tcb_info_signature: self.tcb_info_signature@,
            qe_identity_issuer_chain: self.qe_identity_issuer_chain@,
            qe_identity: self.qe_identity@,
            qe_identity_signature: self.qe_identity_signature@,
        }
    }
}

/// A well-formed hex string: even length, lowercase hex digits only.
pub open spec fn valid_hex(s: Seq<char>) -> bool {
    s.len() % 2 == 0 && is_hex_seq(s)
}

/// The collateral bundle denoted by an evidence document: present iff the
/// document parses and all six members are present, with both signatures
/// valid hex.
pub open spec fn spec_collateral(doc: Seq<char>) -> Option<CollateralView> {
    let a = json_str_field(doc, "tcb_info_issuer_chain"@);
    let b = json_str_field(doc, "tcb_info"@);
    let c = json_str_field(doc, "tcb_info_signature"@);
    let d = json_str_field(doc, "qe_identity_issuer_chain"@);
    let e = json_str_field(doc, "qe_identity"@);
    let f = json_str_field(doc, "qe_identity_signature"@);
    if a is Some && b is Some && c is Some && d is Some && e is Some && f is Some
        && valid_hex(c.unwrap()) && valid_hex(f.unwrap()) {
        Some(
            CollateralView {
                tcb_info_issuer_chain: a.unwrap(),
                tcb_info: b.unwrap(),
                tcb_info_signature: hex_decode(c.unwrap()),
                qe_identity_issuer_chain: d.unwrap(),
                qe_identity: e.unwrap(),
                qe_identity_signature: hex_decode(f.unwrap()),
            },
        )
    } else {
        None
    }
}

/// Decode a raw evidence document into a collateral bundle.
pub fn get_collateral(raw_quote_collateral: &str) -> (r: Result<QuoteCollateralV3, Error>)
    ensures
        match r {
            Ok(c) => spec_collateral(raw_quote_collateral@) == Some(c@),
            Err(e) => e == Error::MalformedCollateral && spec_collateral(raw_quote_collateral@)
                is None,
        },
{
    let a = match get_json_str_field(raw_quote_collateral, "tcb_info_issuer_chain") {
        Some(s) => s,
        None => {
            return Err(Error::MalformedCollateral);
        },
    };
    let b = match get_json_str_field(raw_quote_collateral, "tcb_info") {
        Some(s) => s,
        None => {
            return Err(Error::MalformedCollateral);
        },
    };
    let c = match get_json_str_field(raw_quote_collateral, "tcb_info_signature") {
        Some(s) => s,
        None => {
            return Err(Error::MalformedCollateral);
        },
    };
    let d = match get_json_str_field(raw_quote_collateral, "qe_identity_issuer_chain") {
        Some(s) => s,
        None => {
            return Err(Error::MalformedCollateral);
        },
    };
    let e = match get_json_str_field(raw_quote_collateral, "qe_identity") {
        Some(s) => s,
        None => {
            return Err(Error::MalformedCollateral);
        },
    };
    let f = match get_json_str_field(raw_quote_collateral, "qe_identity_signature") {
        Some(s) => s,
        None => {
            return Err(Error::MalformedCollateral);
        },
    };
    let c_bytes = match decode_hex(c.as_str()) {
        Some(v) => v,
        None => {
            return Err(Error::MalformedCollateral);
        },
    };
    let f_bytes = match decode_hex(f.as_str()) {
        Some(v) => v,
        None => {
            return Err(Error::MalformedCollateral);
        },
    };
    Ok(
        QuoteCollateralV3 {
            tcb_info_issuer_chain: a,
            tcb_info: b,
            tcb_info_signature: c_bytes,
            qe_identity_issuer_chain: d,
            qe_identity: e,
            qe_identity_signature: f_bytes,
        },
    )
}

/// The TCB-info document: the ordered event log and the manifest text.
#[derive(Debug)]
pub struct TcbInfo {
    pub event_log: Vec<EventLogEntry>,
    pub app_compose: String,
}

#[verifier::ext_equal]
pub ghost struct TcbView {
    pub events: Seq<EventView>,
    pub app_compose: Seq<char>,
}

impl View for TcbInfo {
    type V = TcbView;

    open spec fn view(&self) -> TcbView {
        TcbView { events: log_view(self.event_log@), app_compose: self.app_compose@ }
    }
}

/// The event-log entry denoted by element `i` of the document's event log:
/// present iff its register index fits a byte, its name is present, and its
/// digest is 96 lowercase hex characters (48 bytes).
pub open spec fn spec_event_at(doc: Seq<char>, i: int) -> Option<EventView> {
    let imr = json_array_u64_field(doc, "event_log"@, i, "imr"@);
    let ev = json_array_str_field(doc, "event_log"@, i, "event"@);
    let dg = json_array_str_field(doc, "event_log"@, i, "digest"@);
    if imr is Some && imr.unwrap() <= 255 && ev is Some && dg is Some && dg.unwrap().len() == 96
        && is_hex_seq(dg.unwrap()) {
        Some(
            EventView {
                imr: imr.unwrap() as u8,
                event: ev.unwrap(),
                digest: hex_decode(dg.unwrap()),
            },
        )
    } else {
        None
    }
}

pub open spec fn spec_events_ok(doc: Seq<char>, n: int) -> bool {
    forall|i: int| 0 <= i < n ==> (#[trigger] spec_event_at(doc, i)) is Some
}

/// The TCB info denoted by a document: present iff the manifest text and
/// the event-log array are present and every event decodes.
pub open spec fn spec_decode_tcb(doc: Seq<char>) -> Option<TcbView> {
    let app = json_str_field(doc, "app_compose"@);
    let n = json_array_len(doc, "event_log"@);
    if app is Some && n is Some && n.unwrap() >= 0 && spec_events_ok(doc, n.unwrap()) {
        Some(
            TcbView {
                events: Seq::new(n.unwrap() as nat, |i: int| spec_event_at(doc, i).unwrap()),
                app_compose: app.unwrap(),
            },
        )
    } else {
        None
    }
}

/// Decode and validate one event-log entry of a TCB-info document.
fn decode_event(doc: &str, i: usize) -> (r: Option<EventLogEntry>)
    ensures
        match r {
            Some(e) => spec_event_at(doc@, i as int) == Some(e@),
            None => spec_event_at(doc@, i as int) is None,
        },
{
    let imr = match get_json_array_u64_field(doc, "event_log", i, "imr") {
        Some(v) => v,
        None => {
            return None;
        },
    };
    if imr > 255 {
        return None;
    }
    let ev = match get_json_array_str_field(doc, "event_log", i, "event") {
        Some(s) => s,
        None => {
            return None;
        },
    };
    let dg_hex = match get_json_array_str_field(doc, "event_log", i, "digest") {
        Some(s) => s,
        None => {
            return None;
        },
    };
    if dg_hex.as_str().unicode_len() != 96 {
        return None;
    }
    let dg = match decode_hex(dg_hex.as_str()) {
        Some(v) => v,
        None => {
            return None;
        },
    };
    Some(EventLogEntry { imr: imr as u8, event: ev, digest: dg })
}

/// Decode and validate a raw TCB-info document.
pub fn decode_tcb_info(doc: &str) -> (r: Result<TcbInfo, Error>)
    ensures
        match r {
            Ok(t) => spec_decode_tcb(doc@) == Some(t@),
            Err(e) => e == Error::MalformedCollateral && spec_decode_tcb(doc@) is None,
        },
{
    let app = match get_json_str_field(doc, "app_compose") {
        Some(s) => s,
        None => {
            return Err(Error::MalformedCollateral);
        },
    };
    let n = match get_json_array_len(doc, "event_log") {
        Some(n) => n,
        None => {
            return Err(Error::MalformedCollateral);
        },
    };
    let mut event_log: Vec<EventLogEntry> = Vec::new();
    let mut i: usize = 0;
    while i < n
        invariant
            i <= n,
            json_str_field(doc@, "app_compose"@) == Some(app@),
            json_array_len(doc@, "event_log"@) == Some(n as int),
            event_log@.len() == i as int,
            forall|k: int| 0 <= k < i ==> (#[trigger] spec_event_at(doc@, k)) is Some,
            forall|k: int|
                0 <= k < i ==> log_view(event_log@)[k] == (#[trigger] spec_event_at(
                    doc@,
                    k,
                )).unwrap(),
        decreases n - i,
    {
        let e = match decode_event(doc, i) {
            Some(e) => e,
            None => {
                proof {
                    assert(!spec_events_ok(doc@, n as int));
                }
                return Err(Error::MalformedCollateral);
            },
        };
        event_log.push(e);
        i = i + 1;
    }
    let t = TcbInfo { event_log, app_compose: app };
    proof {
        let spec_events = Seq::new(n as nat, |k: int| spec_event_at(doc@, k).unwrap());
        assert(log_view(t.event_log@) =~= spec_events);
        assert(spec_decode_tcb(doc@) == Some(t@));
    }
    Ok(t)
}

/// Position of the first compose-hash event at or after `from`.
pub open spec fn spec_find_event(events: Seq<EventView>, from: int) -> Option<int>
    decreases events.len() - from + 1,
{
    if from < 0 || from >= events.len() {
        None
    } else if events[from].event == "compose-hash"@ {
        Some(from)
    } else {
        spec_find_event(events, from + 1)
    }
}

/// Equality of two byte vectors.
pub fn vec_u8_eq(a: &Vec<u8>, b: &Vec<u8>) -> (r: bool)
    ensures
        r == (a@ == b@),
{
    if a.len() != b.len() {
        return false;
    }
    let mut i: usize = 0;
    while i < a.len()
        invariant
            i <= a@.len(),
            a@.len() == b@.len(),
            forall|k: int| 0 <= k < i ==> a@[k] == b@[k],
        decreases a@.len() - i,
    {
        if a[i] != b[i] {
            return false;
        }
        i = i + 1;
    }
    proof {
        assert(a@ =~= b@);
    }
    true
}

/// The codehash released by the integrity gate for a decoded TCB info and
/// an observed register value (lowercase hex): deny unless the log claims a
/// compose-hash event, the manifest replays to exactly that claim, and the
/// register replays to exactly the observed value.
pub open spec fn spec_verify_codehash_tcb(t: TcbView, rt3_hex: Seq<char>) -> Result<
    Seq<char>,
    Error,
> {
    match spec_find_event(t.events, 0) {
        None => Err(Error::IntegrityMismatch),
        Some(i) => {
            if spec_compose_hash(t.app_compose) != t.events[i].digest {
                Err(Error::IntegrityMismatch)
            } else if rt3_hex != hex_encode(spec_replay_rtmr(t.events, 3)) {
                Err(Error::IntegrityMismatch)
            } else {
                match spec_extract_codehash(t.app_compose) {
                    None => Err(Error::ManifestParseError),
                    Some(c) => Ok(c),
                }
            }
        },
    }
}

/// Codehash verification over a raw TCB-info document.
pub open spec fn spec_verify_codehash(doc: Seq<char>, rt3_hex: Seq<char>) -> Result<
    Seq<char>,
    Error,
> {
    match spec_decode_tcb(doc) {
        None => Err(Error::MalformedCollateral),
        Some(t) => spec_verify_codehash_tcb(t, rt3_hex),
    }
}

/// Equality of two strings.
pub fn str_eq(a: &str, b: &str) -> (r: bool)
    ensures
        r == (a@ == b@),
{
    let n = a.unicode_len();
    if n != b.unicode_len() {
        return false;
    }
    let mut i: usize = 0;
    while i < n
        invariant
            i <= n,
            a@.len() == n,
            b@.len() == n,
            forall|k: int| 0 <= k < i ==> a@[k] == b@[k],
        decreases n - i,
    {
        if a.get_char(i) != b.get_char(i) {
            return false;
        }
        i = i + 1;
    }
    proof {
        assert(a@ =~= b@);
    }
    true
}

proof fn lemma_find_event_step(events: Seq<EventView>, i: int)
    requires
        0 <= i < events.len(),
        events[i].event != "compose-hash"@,
    ensures
        spec_find_event(events, i) == spec_find_event(events, i + 1),
{
}

/// Position of the first compose-hash event in the log.
fn find_compose_event(log: &Vec<EventLogEntry>) -> (r: Option<usize>)
    ensures
        match r {
            Some(i) => i < log@.len() && spec_find_event(log_view(log@), 0) == Some(i as int),
            None => spec_find_event(log_view(log@), 0) is None,
        },
{
    let mut idx: usize = 0;
    while idx < log.len()
        invariant
            idx <= log@.len(),
            spec_find_event(log_view(log@), 0) == spec_find_event(log_view(log@), idx as int),
        decreases log@.len() - idx,
    {
        if str_eq(log[idx].event.as_str(), "compose-hash") {
            return Some(idx);
        }
        proof {
            lemma_find_event_step(log_view(log@), idx as int);
        }
        idx = idx + 1;
    }
    None
}

/// The integrity gate on a decoded TCB info: cross-check the replayed
/// compose hash against the event log's claim, the replayed register
/// against the observed one, then extract the codehash.
pub fn verify_codehash_tcb(t: &TcbInfo, rt3_hex: &str) -> (r: Result<String, Error>)
    ensures
        match r {
            Ok(c) => spec_verify_codehash_tcb(t@, rt3_hex@) == Ok::<Seq<char>, Error>(c@),
            Err(e) => spec_verify_codehash_tcb(t@, rt3_hex@) == Err::<Seq<char>, Error>(e),
        },
{
    let i = match find_compose_event(&t.event_log) {
        Some(i) => i,
        None => {
            return Err(Error::IntegrityMismatch);
        },
    };
    let replayed_compose = compose_hash_bytes(t.app_compose.as_str());
    if !vec_u8_eq(&replayed_compose, &t.event_log[i].digest) {
        return Err(Error::IntegrityMismatch);
    }
    let replayed_rt3 = replay_rtmr_bytes(&t.event_log, 3);
    let replayed_rt3_hex = encode_hex(&replayed_rt3);
    if !str_eq(rt3_hex, replayed_rt3_hex.as_str()) {
        return Err(Error::IntegrityMismatch);
    }
    extract_codehash(t.app_compose.as_str())
}

/// Verify a raw TCB-info document against an observed register-3 value and
/// return the deployed-image codehash it binds.
pub fn verify_codehash(raw_tcb_info: &str, rtmr3: &str) -> (r: Result<String, Error>)
    ensures
        match r {
            Ok(c) => spec_verify_codehash(raw_tcb_info@, rtmr3@) == Ok::<Seq<char>, Error>(c@),
            Err(e) => spec_verify_codehash(raw_tcb_info@, rtmr3@) == Err::<Seq<char>, Error>(e),
        },
{
    let t = match decode_tcb_info(raw_tcb_info) {
        Ok(t) => t,
        Err(e) => {
            return Err(e);
        },
    };
    verify_codehash_tcb(&t, rtmr3)
}

/// Law: the integrity gate denies by default. Each of its three checks is
/// independently sufficient to deny: a missing compose-hash claim, a
/// manifest that does not replay to the claim, and a register that does not
/// replay to the observed value.
/// Law, the converse of deny-by-default: a codehash is released only when
/// the log claims a compose-hash event, the manifest replays to exactly
/// that claim, the register replays to exactly the observed value, and the
/// manifest carries that codehash.
pub proof fn lemma_release_requires_agreement(t: TcbView, rt3_hex: Seq<char>, c: Seq<char>)
    requires
        spec_verify_codehash_tcb(t, rt3_hex) == Ok::<Seq<char>, Error>(c),
    ensures
        spec_find_event(t.events, 0) is Some,
        spec_compose_hash(t.app_compose) == t.events[spec_find_event(t.events, 0).unwrap()].digest,
        rt3_hex == hex_encode(spec_replay_rtmr(t.events, 3)),
        spec_extract_codehash(t.app_compose) == Some(c),
{
}

pub proof fn lemma_deny_by_default(t: TcbView, rt3_hex: Seq<char>, i: int)
    ensures
        spec_find_event(t.events, 0) is None ==> spec_verify_codehash_tcb(t, rt3_hex) == Err::<
            Seq<char>,
            Error,
        >(Error::IntegrityMismatch),
        spec_find_event(t.events, 0) == Some(i) && spec_compose_hash(t.app_compose)
            != t.events[i].digest ==> spec_verify_codehash_tcb(t, rt3_hex) == Err::<
            Seq<char>,
            Error,
        >(Error::IntegrityMismatch),
        spec_find_event(t.events, 0) == Some(i) && rt3_hex != hex_encode(
            spec_replay_rtmr(t.events, 3),
        ) ==> spec_verify_codehash_tcb(t, rt3_hex) == Err::<Seq<char>, Error>(
            Error::IntegrityMismatch,
        ),
{
}

} // verus!
