//! Measurement replay: recomputes cumulative measurement-register digests
//! and the manifest-integrity digest from an ordered event log, following
//! the platform's register-extend convention. Both replays are pure
//! functions of their inputs, and the laws at the end bind distinct inputs
//! to distinct digests up to a SHA collision.

use vstd::prelude::*;
use vstd::string::StrSliceExecFns;
use vstd::utf8::encode_utf8;
use vstd::utf8::encode_utf8_decode_utf8;
use crate::digest::{sha256, sha256_of, sha384, sha384_of, sha256_collision, sha384_collision};
use crate::hexcode::{hex_encode, lemma_hex_encode_injective};

verus! {

/// One measured event: which register it extends, its event name, and the
/// 48-byte digest that was extended into the register.
#[derive(Debug)]
pub struct EventLogEntry {
    pub imr: u8,
    pub event: String,
    pub digest: Vec<u8>,
}

/// Mathematical image of an event log entry.
pub ghost struct EventView {
    pub imr: u8,
    pub event: Seq<char>,
    pub digest: Seq<u8>,
}

impl View for EventLogEntry {
    type V = EventView;

    open spec fn view(&self) -> EventView {
        EventView { imr: self.imr, event: self.event@, digest: self.digest@ }
    }
}

/// A well-formed entry carries a full 48-byte digest.
pub open spec fn event_wf(e: EventView) -> bool {
    e.digest.len() == 48
}

pub open spec fn log_view(log: Seq<EventLogEntry>) -> Seq<EventView> {
    log.map_values(|e: EventLogEntry| e@)
}

/// The initial register value: 48 zero bytes.
pub open spec fn zero_digest48() -> Seq<u8> {
    Seq::new(48, |i: int| 0u8)
}

/// The replayed value of register `imr`: fold the log in its original
/// order, extending the running digest with each entry aimed at that
/// register and skipping every other entry.
pub open spec fn spec_replay_rtmr(log: Seq<EventView>, imr: u8) -> Seq<u8>
    decreases log.len(),
{
    if log.len() == 0 {
        zero_digest48()
    } else {
        let prev = spec_replay_rtmr(log.drop_last(), imr);
        if log.last().imr == imr {
            sha384_of(prev + log.last().digest)
        } else {
            prev
        }
    }
}

/// The fixed platform prefix and event name that frame a compose-hash
/// measurement: 01 00 00 08, ":", "compose-hash", ":".
pub open spec fn compose_frame() -> Seq<u8> {
    seq![
        1u8,
        0u8,
        0u8,
        8u8,
        58u8,
        99u8,
        111u8,
        109u8,
        112u8,
        111u8,
        115u8,
        101u8,
        45u8,
        104u8,
        97u8,
        115u8,
        104u8,
        58u8,
    ]
}

pub open spec fn compose_preimage(h: Seq<u8>) -> Seq<u8> {
    compose_frame() + h
}

/// The manifest-integrity digest: SHA-384 over the framed SHA-256 of the
/// manifest text's UTF-8 bytes.
pub open spec fn spec_compose_hash(app: Seq<char>) -> Seq<u8> {
    sha384_of(compose_preimage(sha256_of(encode_utf8(app))))
}

/// `a@ + b@` as a fresh vector.
fn concat_bytes(a: &Vec<u8>, b: &Vec<u8>) -> (r: Vec<u8>)
    ensures
        r@ == a@ + b@,
{
    let mut out: Vec<u8> = Vec::new();
    let mut i: usize = 0;
    while i < a.len()
        invariant
            i <= a.len(),
            out@ == a@.take(i as int),
        decreases a.len() - i,
    {
        out.push(a[i]);
        i = i + 1;
        proof {
            assert(out@ =~= a@.take(i as int));
        }
    }
    let mut j: usize = 0;
    while j < b.len()
        invariant
            j <= b.len(),
            out@ == a@ + b@.take(j as int),
        decreases b.len() - j,
    {
        out.push(b[j]);
        j = j + 1;
        proof {
            assert(out@ =~= a@ + b@.take(j as int));
        }
    }
    proof {
        assert(a@.take(a@.len() as int) =~= a@);
        assert(a@ + b@.take(b@.len() as int) =~= a@ + b@);
    }
    out
}

/// Replay register `imr` from the event log, in log order, as raw bytes.
pub fn replay_rtmr_bytes(event_log: &Vec<EventLogEntry>, imr: u8) -> (r: Vec<u8>)
    ensures
        r@ == spec_replay_rtmr(log_view(event_log@), imr),
{
    let mut digest: Vec<u8> = Vec::new();
    let mut z: usize = 0;
    while z < 48
        invariant
            z <= 48,
            digest@ == zero_digest48().take(z as int),
        decreases 48 - z,
    {
        digest.push(0u8);
        z = z + 1;
        proof {
            assert(digest@ =~= zero_digest48().take(z as int));
        }
    }
    proof {
        assert(digest@ =~= zero_digest48());
        assert(log_view(event_log@.take(0)) =~= log_view(event_log@).take(0));
    }
    let mut i: usize = 0;
    while i < event_log.len()
        invariant
            i <= event_log.len(),
            digest@ == spec_replay_rtmr(log_view(event_log@).take(i as int), imr),
        decreases event_log.len() - i,
    {
        let ghost pre = log_view(event_log@).take(i as int);
        if event_log[i].imr == imr {
            let buf = concat_bytes(&digest, &event_log[i].digest);
            digest = sha384(&buf);
        }
        i = i + 1;
        proof {
            let cur = log_view(event_log@).take(i as int);
            assert(cur.drop_last() =~= pre);
            assert(cur.last() == event_log@[i - 1]@);
        }
    }
    proof {
        assert(log_view(event_log@).take(event_log@.len() as int) =~= log_view(event_log@));
    }
    digest
}

/// Replay register `imr` and return the digest as a lowercase hex string.
pub fn replay_rtmr(event_log: &Vec<EventLogEntry>, imr: u8) -> (r: String)
    ensures
        r@ == hex_encode(spec_replay_rtmr(log_view(event_log@), imr)),
{
    let bytes = replay_rtmr_bytes(event_log, imr);
    crate::hexcode::encode_hex(&bytes)
}

/// The manifest-integrity digest of `app_compose`, as raw bytes.
pub fn compose_hash_bytes(app_compose: &str) -> (r: Vec<u8>)
    ensures
        r@ == spec_compose_hash(app_compose@),
        r@.len() == 48,
{
    let sb = app_compose.as_bytes_vec();
    let h1 = sha256(&sb);
    let mut buf: Vec<u8> = Vec::new();
    buf.push(1u8);
    buf.push(0u8);
    buf.push(0u8);
    buf.push(8u8);
    buf.push(58u8);
    buf.push(99u8);
    buf.push(111u8);
    buf.push(109u8);
    buf.push(112u8);
    buf.push(111u8);
    buf.push(115u8);
    buf.push(101u8);
    buf.push(45u8);
    buf.push(104u8);
    buf.push(97u8);
    buf.push(115u8);
    buf.push(104u8);
    buf.push(58u8);
    proof {
        assert(buf@ =~= compose_frame());
    }
    let pre = concat_bytes(&buf, &h1);
    sha384(&pre)
}

/// Replay the compose hash and return it as a lowercase hex string.
pub fn replay_app_compose(app_compose: &str) -> (r: String)
    ensures
        r@ == hex_encode(spec_compose_hash(app_compose@)),
{
    let bytes = compose_hash_bytes(app_compose);
    crate::hexcode::encode_hex(&bytes)
}

/// Law: both replays are pure functions of their inputs. Two calls on equal
/// inputs yield equal digests; together with the `ensures` of the replay
/// functions this makes every replay deterministic.
pub proof fn lemma_replay_deterministic(
    log1: Seq<EventView>,
    log2: Seq<EventView>,
    imr: u8,
    app1: Seq<char>,
    app2: Seq<char>,
)
    requires
        log1 == log2,
        app1 == app2,
    ensures
        spec_replay_rtmr(log1, imr) == spec_replay_rtmr(log2, imr),
        spec_compose_hash(app1) == spec_compose_hash(app2),
{
}

/// Law, first half of order sensitivity: over the log
/// `[(3, d1), (3, d2), (1, d3)]`, register 3 replays to
/// `SHA384(SHA384(zero48 || d1) || d2)`; the register-1 entry is skipped and
/// its digest has no effect on the result.
pub proof fn lemma_replay_order_unfolds(e1: EventView, e2: EventView, e3: EventView)
    requires
        e1.imr == 3,
        e2.imr == 3,
        e3.imr == 1,
    ensures
        spec_replay_rtmr(seq![e1, e2, e3], 3) == sha384_of(
            sha384_of(zero_digest48() + e1.digest) + e2.digest,
        ),
        spec_replay_rtmr(seq![e1, e2, e3], 3) == spec_replay_rtmr(seq![e1, e2], 3),
{
    let log = seq![e1, e2, e3];
    let log12 = seq![e1, e2];
    let log1 = seq![e1];
    let nil = Seq::<EventView>::empty();
    assert(log.drop_last() =~= log12);
    assert(log12.drop_last() =~= log1);
    assert(log1.drop_last() =~= nil);
    assert(spec_replay_rtmr(nil, 3) == zero_digest48());
    assert(spec_replay_rtmr(log1, 3) == sha384_of(zero_digest48() + e1.digest));
    assert(spec_replay_rtmr(log12, 3) == sha384_of(
        sha384_of(zero_digest48() + e1.digest) + e2.digest,
    ));
}

/// Law, second half of order sensitivity: replaying the two register-3
/// entries in the opposite order yields the same register value only if
/// their digests are equal or SHA-384 collides.
pub proof fn lemma_replay_order_sensitive(e1: EventView, e2: EventView)
    requires
        e1.imr == 3,
        e2.imr == 3,
        event_wf(e1),
        event_wf(e2),
        e1.digest != e2.digest,
        spec_replay_rtmr(seq![e1, e2], 3) == spec_replay_rtmr(seq![e2, e1], 3),
    ensures
        sha384_collision(),
{
    let fwd = seq![e1, e2];
    let rev = seq![e2, e1];
    let log1 = seq![e1];
    let log2 = seq![e2];
    let nil = Seq::<EventView>::empty();
    assert(fwd.drop_last() =~= log1);
    assert(rev.drop_last() =~= log2);
    assert(log1.drop_last() =~= nil);
    assert(log2.drop_last() =~= nil);
    let p1 = zero_digest48() + e1.digest;
    let p2 = zero_digest48() + e2.digest;
    let i1 = sha384_of(p1);
    let i2 = sha384_of(p2);
    let q1 = i1 + e2.digest;
    let q2 = i2 + e1.digest;
    assert(spec_replay_rtmr(nil, 3) == zero_digest48());
    assert(spec_replay_rtmr(log1, 3) == i1);
    assert(spec_replay_rtmr(log2, 3) == i2);
    assert(spec_replay_rtmr(fwd, 3) == sha384_of(q1));
    assert(spec_replay_rtmr(rev, 3) == sha384_of(q2));
    if q1 == q2 {
        // Equal concatenations with equal-length (48-byte) suffixes have
        // equal suffixes, contradicting d1 != d2.
        assert(q1.subrange(q1.len() - 48, q1.len() as int) =~= e2.digest);
        assert(q2.subrange(q2.len() - 48, q2.len() as int) =~= e1.digest);
        assert(false);
    } else {
        assert(sha384_of(q1) == sha384_of(q2));
        assert(sha384_collision());
    }
}

/// Law, compose-hash binding: two manifests whose compose hashes (as
/// published, hex-encoded) agree are either the same text or witness a
/// SHA-256 or SHA-384 collision.
pub proof fn lemma_compose_hash_binding(app1: Seq<char>, app2: Seq<char>)
    requires
        app1 != app2,
        hex_encode(spec_compose_hash(app1)) == hex_encode(spec_compose_hash(app2)),
    ensures
        sha256_collision() || sha384_collision(),
{
    lemma_hex_encode_injective(spec_compose_hash(app1), spec_compose_hash(app2));
    let b1 = encode_utf8(app1);
    let b2 = encode_utf8(app2);
    if b1 == b2 {
        // UTF-8 encoding is injective, so the byte strings cannot agree.
        encode_utf8_decode_utf8(app1);
        encode_utf8_decode_utf8(app2);
        assert(false);
    }
    let h1 = sha256_of(b1);
    let h2 = sha256_of(b2);
    if h1 == h2 {
        assert(sha256_collision());
    } else {
        let p1 = compose_preimage(h1);
        let p2 = compose_preimage(h2);
        if p1 == p2 {
            // The frame is a fixed 18-byte prefix, so equal preimages give
            // equal digests.
            assert(p1.subrange(18, p1.len() as int) =~= h1);
            assert(p2.subrange(18, p2.len() as int) =~= h2);
            assert(false);
        }
        assert(sha384_of(p1) == sha384_of(p2));
        assert(sha384_collision());
    }
}

} // verus!
