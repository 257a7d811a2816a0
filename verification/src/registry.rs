//! The worker registry, approval registry and signing gate: an
//! owner-controlled allow-list of approved codehashes, a map from principal
//! to verified worker record, and the single authorization check that
//! guards forwarding of signing requests. Registration re-verifies the
//! whole evidence chain; approval membership is re-read at every decision,
//! never cached.

use vstd::prelude::*;
use vstd::string::StringExecFns;
use crate::Error;
use crate::hexcode::{hex_decode, hex_encode};
use crate::extract::is_codehash;
use crate::collateral::{
    spec_collateral, valid_hex, spec_verify_codehash, get_collateral, verify_codehash, vec_u8_eq,
    str_eq,
};
use crate::quote::{spec_verify_quote, trim_zeros, verify_quote, trim_trailing_zeros};
use vstd::string::StrSliceExecFns;
use vstd::utf8::encode_utf8;

verus! {

/// A verified worker record, keyed by its principal identity.
#[derive(Debug)]
pub struct Worker {
    pub principal: String,
    pub codehash: String,
    pub checksum: String,
    pub is_active: bool,
    pub registered_at: u64,
}

#[verifier::ext_equal]
pub ghost struct WorkerView {
    pub principal: Seq<char>,
    pub codehash: Seq<char>,
    pub checksum: Seq<char>,
    pub is_active: bool,
    pub registered_at: u64,
}

impl View for Worker {
    type V = WorkerView;

    open spec fn view(&self) -> WorkerView {
        WorkerView {
            principal: self.principal@,
            codehash: self.codehash@,
            checksum: self.checksum@,
            is_active: self.is_active,
            registered_at: self.registered_at,
        }
    }
}

/// One recorded dispatch of a chunk to the storage network.
#[derive(Debug)]
pub struct DispatchRecord {
    pub chunk_id: String,
    pub rta_id: String,
    pub filecoin_cid: String,
    pub timestamp: u64,
}

#[verifier::ext_equal]
pub ghost struct DispatchView {
    pub chunk_id: Seq<char>,
    pub rta_id: Seq<char>,
    pub filecoin_cid: Seq<char>,
    pub timestamp: u64,
}

impl View for DispatchRecord {
    type V = DispatchView;

    open spec fn view(&self) -> DispatchView {
        DispatchView {
            chunk_id: self.chunk_id@,
            rta_id: self.rta_id@,
            filecoin_cid: self.filecoin_cid@,
            timestamp: self.timestamp,
        }
    }
}

/// An authorized signing request, forwarded unmodified to the external
/// signer by the caller's host shell.
#[derive(Debug)]
pub struct SignRequest {
    pub payload: Vec<u8>,
    pub derivation_path: String,
    pub key_version: u32,
}

pub open spec fn worker_views(ws: Seq<Worker>) -> Seq<WorkerView> {
    ws.map_values(|w: Worker| w@)
}

pub open spec fn hash_views(hs: Seq<String>) -> Seq<Seq<char>> {
    hs.map_values(|s: String| s@)
}

pub open spec fn dispatch_views(ds: Seq<DispatchRecord>) -> Seq<DispatchView> {
    ds.map_values(|d: DispatchRecord| d@)
}

/// The worker map denoted by a record list: later records win, though
/// well-formed states never hold two records for one principal.
pub open spec fn workers_map_of(ws: Seq<WorkerView>) -> Map<Seq<char>, WorkerView>
    decreases ws.len(),
{
    if ws.len() == 0 {
        Map::empty()
    } else {
        workers_map_of(ws.drop_last()).insert(ws.last().principal, ws.last())
    }
}

pub open spec fn unique_principals(ws: Seq<WorkerView>) -> bool {
    forall|i: int, j: int| 0 <= i < j < ws.len() ==> ws[i].principal != ws[j].principal
}

pub open spec fn unique_hashes(hs: Seq<Seq<char>>) -> bool {
    forall|i: int, j: int| 0 <= i < j < hs.len() ==> hs[i] != hs[j]
}

proof fn lemma_map_contains(ws: Seq<WorkerView>, p: Seq<char>)
    ensures
        workers_map_of(ws).contains_key(p) <==> exists|i: int|
            0 <= i < ws.len() && #[trigger] ws[i].principal == p,
    decreases ws.len(),
{
    if ws.len() > 0 {
        let pre = ws.drop_last();
        lemma_map_contains(pre, p);
        if ws.last().principal == p {
            assert(ws[ws.len() - 1].principal == p);
        } else {
            if exists|i: int| 0 <= i < pre.len() && #[trigger] pre[i].principal == p {
                let i = choose|i: int| 0 <= i < pre.len() && #[trigger] pre[i].principal == p;
                assert(ws[i].principal == p);
            }
            if exists|i: int| 0 <= i < ws.len() && #[trigger] ws[i].principal == p {
                let i = choose|i: int| 0 <= i < ws.len() && #[trigger] ws[i].principal == p;
                assert(i < ws.len() - 1);
                assert(pre[i].principal == p);
            }
        }
    }
}

proof fn lemma_map_index(ws: Seq<WorkerView>, i: int)
    requires
        unique_principals(ws),
        0 <= i < ws.len(),
    ensures
        workers_map_of(ws).contains_key(ws[i].principal),
        workers_map_of(ws)[ws[i].principal] == ws[i],
    decreases ws.len(),
{
    let pre = ws.drop_last();
    if i == ws.len() - 1 {
    } else {
        assert(unique_principals(pre));
        assert(pre[i] == ws[i]);
        lemma_map_index(pre, i);
        assert(ws.last().principal != ws[i].principal);
    }
}

proof fn lemma_map_remove(ws: Seq<WorkerView>, i: int)
    requires
        unique_principals(ws),
        0 <= i < ws.len(),
    ensures
        workers_map_of(ws.remove(i)) == workers_map_of(ws).remove(ws[i].principal),
    decreases ws.len(),
{
    let pre = ws.drop_last();
    if i == ws.len() - 1 {
        assert(ws.remove(i) =~= pre);
        lemma_map_contains(pre, ws[i].principal);
        assert(!workers_map_of(pre).contains_key(ws[i].principal));
        assert(workers_map_of(pre).remove(ws[i].principal) =~= workers_map_of(pre));
        assert(workers_map_of(ws).remove(ws[i].principal) =~= workers_map_of(pre));
    } else {
        assert(unique_principals(pre));
        lemma_map_remove(pre, i);
        assert(ws.remove(i).drop_last() =~= pre.remove(i));
        assert(ws.remove(i).last() == ws.last());
        assert(workers_map_of(ws.remove(i)) == workers_map_of(pre.remove(i)).insert(
            ws.last().principal,
            ws.last(),
        ));
        assert(pre[i] == ws[i]);
        assert(ws.last().principal != ws[i].principal);
        assert(workers_map_of(pre).remove(ws[i].principal).insert(ws.last().principal, ws.last())
            =~= workers_map_of(pre).insert(ws.last().principal, ws.last()).remove(
            ws[i].principal,
        ));
    }
}

proof fn lemma_map_push(ws: Seq<WorkerView>, w: WorkerView)
    ensures
        workers_map_of(ws.push(w)) == workers_map_of(ws).insert(w.principal, w),
{
    assert(ws.push(w).drop_last() =~= ws);
    assert(ws.push(w).last() == w);
}

/// Dispatch records whose asset identifier equals `rta`.
pub open spec fn filter_rta(ds: Seq<DispatchView>, rta: Seq<char>) -> Seq<DispatchView>
    decreases ds.len(),
{
    if ds.len() == 0 {
        Seq::empty()
    } else {
        let rest = filter_rta(ds.drop_last(), rta);
        if ds.last().rta_id == rta {
            rest.push(ds.last())
        } else {
            rest
        }
    }
}

/// The contract state: owner, signer address, approved codehashes, worker
/// records, and the append-only dispatch log.
pub struct Contract {
    pub owner_id: String,
    pub mpc_contract: String,
    pub approved_codehashes: Vec<String>,
    pub workers: Vec<Worker>,
    pub dispatch_records: Vec<DispatchRecord>,
}

impl Contract {
    pub open spec fn owner(&self) -> Seq<char> {
        self.owner_id@
    }

    pub open spec fn mpc(&self) -> Seq<char> {
        self.mpc_contract@
    }

    pub open spec fn approved_seq(&self) -> Seq<Seq<char>> {
        hash_views(self.approved_codehashes@)
    }

    /// Membership in the approval allow-list.
    pub open spec fn is_approved(&self, h: Seq<char>) -> bool {
        self.approved_seq().contains(h)
    }

    pub open spec fn workers(&self) -> Map<Seq<char>, WorkerView> {
        workers_map_of(worker_views(self.workers@))
    }

    pub open spec fn dispatches(&self) -> Seq<DispatchView> {
        dispatch_views(self.dispatch_records@)
    }

    /// Well-formed state: one record per principal, no duplicate approvals,
    /// every approved entry a valid codehash, and every record keyed by its
    /// own principal.
    pub open spec fn wf(&self) -> bool {
        &&& unique_principals(worker_views(self.workers@))
        &&& unique_hashes(self.approved_seq())
        &&& forall|i: int|
            0 <= i < self.approved_seq().len() ==> is_codehash(#[trigger] self.approved_seq()[i])
    }

    /// A registered worker whose codehash is approved right now.
    pub open spec fn worker_gate(&self, caller: Seq<char>) -> bool {
        &&& self.workers().contains_key(caller)
        &&& self.is_approved(self.workers()[caller].codehash)
    }

    /// The signing gate: registered, still active, and approved right now.
    pub open spec fn sign_allowed(&self, caller: Seq<char>) -> bool {
        self.worker_gate(caller) && self.workers()[caller].is_active
    }

    /// Fresh state with the given owner, no approvals, no workers, and the
    /// default signer address.
    pub fn init(owner_id: String) -> (c: Contract)
        ensures
            c.wf(),
            c.owner() == owner_id@,
            c.mpc() == "v1.signer-prod.testnet"@,
            c.workers() == Map::<Seq<char>, WorkerView>::empty(),
            c.approved_seq() == Seq::<Seq<char>>::empty(),
            c.dispatches() == Seq::<DispatchView>::empty(),
    {
        let c = Contract {
            owner_id,
            mpc_contract: String::from_str("v1.signer-prod.testnet"),
            approved_codehashes: Vec::new(),
            workers: Vec::new(),
            dispatch_records: Vec::new(),
        };
        proof {
            assert(worker_views(c.workers@) =~= Seq::<WorkerView>::empty());
            assert(c.approved_seq() =~= Seq::<Seq<char>>::empty());
            assert(c.dispatches() =~= Seq::<DispatchView>::empty());
        }
        c
    }

    /// Index of the record for `principal`, if registered.
    fn find_worker_index(&self, principal: &String) -> (r: Option<usize>)
        ensures
            match r {
                Some(i) => i < self.workers@.len() && self.workers@[i as int].principal@
                    == principal@,
                None => forall|i: int|
                    0 <= i < self.workers@.len() ==> (#[trigger] self.workers@[i]).principal@
                        != principal@,
            },
    {
        let mut i: usize = 0;
        while i < self.workers.len()
            invariant
                i <= self.workers@.len(),
                forall|k: int|
                    0 <= k < i ==> (#[trigger] self.workers@[k]).principal@ != principal@,
            decreases self.workers@.len() - i,
        {
            if str_eq(self.workers[i].principal.as_str(), principal.as_str()) {
                return Some(i);
            }
            i = i + 1;
        }
        None
    }

    /// Index of `codehash` in the allow-list, if present.
    fn find_approved_index(&self, codehash: &String) -> (r: Option<usize>)
        ensures
            match r {
                Some(i) => i < self.approved_codehashes@.len()
                    && self.approved_codehashes@[i as int]@ == codehash@,
                None => forall|k: int|
                    0 <= k < self.approved_codehashes@.len()
                        ==> (#[trigger] self.approved_codehashes@[k])@ != codehash@,
            },
    {
        let mut i: usize = 0;
        while i < self.approved_codehashes.len()
            invariant
                i <= self.approved_codehashes@.len(),
                forall|k: int|
                    0 <= k < i ==> (#[trigger] self.approved_codehashes@[k])@ != codehash@,
            decreases self.approved_codehashes@.len() - i,
        {
            if str_eq(self.approved_codehashes[i].as_str(), codehash.as_str()) {
                return Some(i);
            }
            i = i + 1;
        }
        None
    }

    /// Whether `codehash` is in the allow-list right now.
    pub fn is_codehash_approved(&self, codehash: &String) -> (r: bool)
        ensures
            r == self.is_approved(codehash@),
    {
        let r = self.find_approved_index(codehash);
        proof {
            if r is Some {
                let i = r.unwrap() as int;
                assert(self.approved_seq()[i] == codehash@);
            } else {
                if self.approved_seq().contains(codehash@) {
                    let i = choose|i: int|
                        0 <= i < self.approved_seq().len() && self.approved_seq()[i] == codehash@;
                    assert(self.approved_codehashes@[i]@ == codehash@);
                }
            }
        }
        r.is_some()
    }

    /// Owner-only: add a codehash to the allow-list. A non-owner caller is
    /// refused and the list is unchanged; a malformed codehash is refused.
    pub fn approve_codehash(&mut self, caller: &String, codehash: String) -> (r: Result<
        (),
        Error,
    >)
        requires
            old(self).wf(),
        ensures
            final(self).wf(),
            final(self).owner() == old(self).owner(),
            final(self).mpc() == old(self).mpc(),
            final(self).workers() == old(self).workers(),
            final(self).dispatches() == old(self).dispatches(),
            match r {
                Ok(()) => caller@ == old(self).owner() && is_codehash(codehash@) && forall|
                    h: Seq<char>,
                |
                    final(self).is_approved(h) <==> old(self).is_approved(h) || h == codehash@,
                Err(e) => *final(self) == *old(self) && ((e == Error::Unauthorized && caller@
                    != old(self).owner()) || (e == Error::ManifestParseError && caller@ == old(self).owner() && !is_codehash(codehash@))),
            },
    {
        if !str_eq(caller.as_str(), self.owner_id.as_str()) {
            return Err(Error::Unauthorized);
        }
        if !crate::extract::check_codehash(codehash.as_str()) {
            return Err(Error::ManifestParseError);
        }
        let ghost old_seq = self.approved_seq();
        match self.find_approved_index(&codehash) {
            Some(i) => {
                proof {
                    assert(old_seq[i as int] == codehash@);
                    assert forall|h: Seq<char>|
                        self.is_approved(h) <==> old_seq.contains(h) || h == codehash@ by {
                        if h == codehash@ {
                            assert(old_seq[i as int] == h);
                        }
                    }
                }
                Ok(())
            },
            None => {
                self.approved_codehashes.push(codehash);
                proof {
                    let new_seq = self.approved_seq();
                    assert(new_seq =~= old_seq.push(new_seq.last()));
                    assert forall|h: Seq<char>|
                        self.is_approved(h) <==> old_seq.contains(h) || h == new_seq.last() by {
                        if new_seq.contains(h) {
                            let i = choose|i: int|
                                0 <= i < new_seq.len() && new_seq[i] == h;
                            if i < old_seq.len() {
                                assert(old_seq[i] == h);
                            }
                        }
                        if old_seq.contains(h) {
                            let i = choose|i: int|
                                0 <= i < old_seq.len() && old_seq[i] == h;
                            assert(new_seq[i] == h);
                        }
                        if h == new_seq.last() {
                            assert(new_seq[new_seq.len() - 1] == h);
                        }
                    }
                    assert forall|i: int, j: int|
                        0 <= i < j < new_seq.len() implies new_seq[i] != new_seq[j] by {
                        if j == new_seq.len() - 1 {
                            assert(old_seq[i] == new_seq[i]);
                        }
                    }
                }
                Ok(())
            },
        }
    }

    /// Owner-only: remove a codehash from the allow-list. A non-owner
    /// caller is refused and the list is unchanged.
    pub fn remove_codehash(&mut self, caller: &String, codehash: &String) -> (r: Result<
        (),
        Error,
    >)
        requires
            old(self).wf(),
        ensures
            final(self).wf(),
            final(self).owner() == old(self).owner(),
            final(self).mpc() == old(self).mpc(),
            final(self).workers() == old(self).workers(),
            final(self).dispatches() == old(self).dispatches(),
            match r {
                Ok(()) => caller@ == old(self).owner() && forall|h: Seq<char>|
                    final(self).is_approved(h) <==> old(self).is_approved(h) && h != codehash@,
                Err(e) => *final(self) == *old(self) && e == Error::Unauthorized && caller@
                    != old(self).owner(),
            },
    {
        if !str_eq(caller.as_str(), self.owner_id.as_str()) {
            return Err(Error::Unauthorized);
        }
        let ghost old_seq = self.approved_seq();
        match self.find_approved_index(codehash) {
            Some(i) => {
                self.approved_codehashes.remove(i);
                proof {
                    let new_seq = self.approved_seq();
                    assert(new_seq =~= old_seq.remove(i as int));
                    assert(old_seq[i as int] == codehash@);
                    assert forall|h: Seq<char>|
                        new_seq.contains(h) <==> old_seq.contains(h) && h != codehash@ by {
                        if new_seq.contains(h) {
                            let k = choose|k: int|
                                0 <= k < new_seq.len() && new_seq[k] == h;
                            if k < i {
                                assert(old_seq[k] == h);
                                assert(old_seq[k] != old_seq[i as int]);
                            } else {
                                assert(old_seq[k + 1] == h);
                                assert(old_seq[k + 1] != old_seq[i as int]);
                            }
                        }
                        if old_seq.contains(h) && h != codehash@ {
                            let k = choose|k: int|
                                0 <= k < old_seq.len() && old_seq[k] == h;
                            assert(k != i);
                            if k < i {
                                assert(new_seq[k] == h);
                            } else {
                                assert(new_seq[k - 1] == h);
                            }
                        }
                    }
                    assert forall|a: int, b: int|
                        0 <= a < b < new_seq.len() implies new_seq[a] != new_seq[b] by {
                        let oa = if a < i {
                            a
                        } else {
                            a + 1
                        };
                        let ob = if b < i {
                            b
                        } else {
                            b + 1
                        };
                        assert(new_seq[a] == old_seq[oa]);
                        assert(new_seq[b] == old_seq[ob]);
                    }
                    assert forall|k: int|
                        0 <= k < new_seq.len() implies is_codehash(#[trigger] new_seq[k]) by {
                        let ok = if k < i {
                            k
                        } else {
                            k + 1
                        };
                        assert(new_seq[k] == old_seq[ok]);
                    }
                }
                Ok(())
            },
            None => {
                proof {
                    assert forall|h: Seq<char>|
                        self.is_approved(h) <==> old_seq.contains(h) && h != codehash@ by {
                        if old_seq.contains(h) {
                            let k = choose|k: int|
                                0 <= k < old_seq.len() && old_seq[k] == h;
                            assert(self.approved_codehashes@[k]@ != codehash@);
                        }
                    }
                }
                Ok(())
            },
        }
    }

    /// The allow-list as a fresh vector.
    pub fn get_approved_codehashes(&self) -> (r: Vec<String>)
        ensures
            hash_views(r@) == self.approved_seq(),
    {
        let mut out: Vec<String> = Vec::new();
        let mut i: usize = 0;
        while i < self.approved_codehashes.len()
            invariant
                i <= self.approved_codehashes@.len(),
                out@.len() == i as int,
                forall|k: int| 0 <= k < i ==> out@[k]@ == (#[trigger] self.approved_codehashes@[k])@,
            decreases self.approved_codehashes@.len() - i,
        {
            out.push(self.approved_codehashes[i].clone());
            i = i + 1;
        }
        proof {
            assert(hash_views(out@) =~= self.approved_seq());
        }
        out
    }

    pub fn get_owner(&self) -> (r: String)
        ensures
            r@ == self.owner(),
    {
        self.owner_id.clone()
    }

    pub fn get_mpc_contract(&self) -> (r: String)
        ensures
            r@ == self.mpc(),
    {
        self.mpc_contract.clone()
    }

    /// Owner-only: name another external signer account.
    pub fn set_mpc_contract(&mut self, caller: &String, mpc_contract: String) -> (r: Result<
        (),
        Error,
    >)
        requires
            old(self).wf(),
        ensures
            final(self).wf(),
            match r {
                Ok(()) => caller@ == old(self).owner() && final(self).mpc() == mpc_contract@
                    && final(self).owner() == old(self).owner() && final(self).workers() == old(self).workers() && final(self).approved_seq() == old(self).approved_seq() && final(self).dispatches() == old(self).dispatches(),
                Err(e) => *final(self) == *old(self) && e == Error::Unauthorized && caller@
                    != old(self).owner(),
            },
    {
        if !str_eq(caller.as_str(), self.owner_id.as_str()) {
            return Err(Error::Unauthorized);
        }
        self.mpc_contract = mpc_contract;
        Ok(())
    }

    /// Whether `account_id` has a worker record.
    pub fn is_worker_registered(&self, account_id: &String) -> (r: bool)
        ensures
            r == self.workers().contains_key(account_id@),
    {
        let r = self.find_worker_index(account_id);
        proof {
            lemma_map_contains(worker_views(self.workers@), account_id@);
            if r is Some {
                let i = r.unwrap() as int;
                assert(worker_views(self.workers@)[i].principal == account_id@);
            } else {
                if exists|i: int|
                    0 <= i < worker_views(self.workers@).len() && #[trigger] worker_views(
                        self.workers@,
                    )[i].principal == account_id@ {
                    let i = choose|i: int|
                        0 <= i < worker_views(self.workers@).len() && #[trigger] worker_views(
                            self.workers@,
                        )[i].principal == account_id@;
                    assert(self.workers@[i].principal@ == account_id@);
                }
            }
        }
        r.is_some()
    }

    /// The worker record for `account_id`, if registered.
    pub fn get_worker(&self, account_id: &String) -> (r: Option<&Worker>)
        requires
            self.wf(),
        ensures
            match r {
                Some(w) => self.workers().contains_key(account_id@) && w@ == self.workers()[account_id@],
                None => !self.workers().contains_key(account_id@),
            },
    {
        match self.find_worker_index(account_id) {
            Some(i) => {
                proof {
                    lemma_map_index(worker_views(self.workers@), i as int);
                }
                Some(&self.workers[i])
            },
            None => {
                proof {
                    lemma_map_contains(worker_views(self.workers@), account_id@);
                    if exists|i: int|
                        0 <= i < worker_views(self.workers@).len() && #[trigger] worker_views(
                            self.workers@,
                        )[i].principal == account_id@ {
                        let i = choose|i: int|
                            0 <= i < worker_views(self.workers@).len() && #[trigger] worker_views(
                                self.workers@,
                            )[i].principal == account_id@;
                        assert(self.workers@[i].principal@ == account_id@);
                    }
                }
                None
            },
        }
    }

    /// Replace or create the record for `w.principal`.
    fn upsert_worker(&mut self, w: Worker)
        requires
            old(self).wf(),
        ensures
            final(self).wf(),
            final(self).owner() == old(self).owner(),
            final(self).mpc() == old(self).mpc(),
            final(self).approved_seq() == old(self).approved_seq(),
            final(self).dispatches() == old(self).dispatches(),
            final(self).workers() == old(self).workers().insert(w.principal@, w@),
    {
        let ghost old_views = worker_views(self.workers@);
        let ghost wv = w@;
        match self.find_worker_index(&w.principal) {
            Some(i) => {
                self.workers.remove(i);
                proof {
                    let mid_views = worker_views(self.workers@);
                    assert(mid_views =~= old_views.remove(i as int));
                    lemma_map_remove(old_views, i as int);
                    assert(old_views[i as int].principal == wv.principal);
                    assert forall|a: int, b: int|
                        0 <= a < b < mid_views.len() implies mid_views[a].principal
                        != mid_views[b].principal by {
                        let oa = if a < i {
                            a
                        } else {
                            a + 1
                        };
                        let ob = if b < i {
                            b
                        } else {
                            b + 1
                        };
                        assert(mid_views[a] == old_views[oa]);
                        assert(mid_views[b] == old_views[ob]);
                    }
                    assert forall|k: int|
                        0 <= k < mid_views.len() implies (#[trigger] mid_views[k]).principal
                        != wv.principal by {
                        let ok = if k < i {
                            k
                        } else {
                            k + 1
                        };
                        assert(mid_views[k] == old_views[ok]);
                        assert(ok != i);
                    }
                }
                let ghost mid_views = worker_views(self.workers@);
                self.workers.push(w);
                proof {
                    assert(worker_views(self.workers@) =~= mid_views.push(wv));
                    lemma_map_push(mid_views, wv);
                    assert forall|a: int, b: int|
                        0 <= a < b < mid_views.push(wv).len() implies mid_views.push(
                            wv,
                        )[a].principal != mid_views.push(wv)[b].principal by {
                        assert(mid_views.push(wv)[a] == mid_views[a]);
                        if b < mid_views.len() {
                            assert(mid_views.push(wv)[b] == mid_views[b]);
                        } else {
                            assert(mid_views.push(wv)[b] == wv);
                        }
                    }
                    assert(workers_map_of(old_views).remove(wv.principal).insert(wv.principal, wv)
                        =~= workers_map_of(old_views).insert(wv.principal, wv));
                }
            },
            None => {
                self.workers.push(w);
                proof {
                    assert(worker_views(self.workers@) =~= old_views.push(wv));
                    lemma_map_push(old_views, wv);
                    assert forall|a: int, b: int|
                        0 <= a < b < old_views.push(wv).len() implies old_views.push(
                            wv,
                        )[a].principal != old_views.push(wv)[b].principal by {
                        assert(old_views.push(wv)[a] == old_views[a]);
                        if b < old_views.len() {
                            assert(old_views.push(wv)[b] == old_views[b]);
                        } else {
                            assert(old_views.push(wv)[b] == wv);
                            assert(old(self).workers@[a].principal@ != wv.principal);
                        }
                    }
                }
            },
        }
    }

    /// The outcome of the full registration chain for the given inputs and
    /// the current allow-list: the verified codehash, or the first error.
    pub open spec fn spec_register_outcome(
        &self,
        caller: Seq<char>,
        quote_hex: Seq<char>,
        collateral: Seq<char>,
        tcb_info: Seq<char>,
    ) -> Result<Seq<char>, Error> {
        if spec_collateral(collateral) is None {
            Err(Error::MalformedCollateral)
        } else if !valid_hex(quote_hex) {
            Err(Error::VerificationFailure)
        } else {
            match spec_verify_quote(hex_decode(quote_hex)) {
                Err(e) => Err(e),
                Ok(rep) => {
                    if trim_zeros(rep.report_data) != encode_utf8(caller) {
                        Err(Error::Unauthorized)
                    } else {
                        match spec_verify_codehash(tcb_info, hex_encode(rep.rtmr3)) {
                            Err(e) => Err(e),
                            Ok(ch) => {
                                if !self.is_approved(ch) {
                                    Err(Error::Unauthorized)
                                } else {
                                    Ok(ch)
                                }
                            },
                        }
                    }
                },
            }
        }
    }

    /// Register the caller as a worker: decode the collateral, decode the
    /// quote, check the attested identity equals the caller, replay and
    /// cross-check the measurement chain, and require the resulting
    /// codehash to be approved. All-or-nothing: on any error the state is
    /// unchanged.
    pub fn register_worker(
        &mut self,
        caller: &String,
        quote_hex: &String,
        collateral: &String,
        checksum: String,
        tcb_info: &String,
        now: u64,
    ) -> (r: Result<bool, Error>)
        requires
            old(self).wf(),
        ensures
            final(self).wf(),
            final(self).owner() == old(self).owner(),
            final(self).mpc() == old(self).mpc(),
            final(self).approved_seq() == old(self).approved_seq(),
            final(self).dispatches() == old(self).dispatches(),
            match r {
                Ok(ok) => ok && old(self).spec_register_outcome(
                    caller@,
                    quote_hex@,
                    collateral@,
                    tcb_info@,
                ) is Ok && final(self).workers() == old(self).workers().insert(
                    caller@,
                    WorkerView {
                        principal: caller@,
                        codehash: old(self).spec_register_outcome(
                            caller@,
                            quote_hex@,
                            collateral@,
                            tcb_info@,
                        ).unwrap(),
                        checksum: checksum@,
                        is_active: true,
                        registered_at: now,
                    },
                ),
                Err(e) => *final(self) == *old(self) && old(self).spec_register_outcome(
                    caller@,
                    quote_hex@,
                    collateral@,
                    tcb_info@,
                ) == Err::<Seq<char>, Error>(e),
            },
    {
        if let Err(e) = get_collateral(collateral.as_str()) {
            return Err(e);
        }
        let quote = match hex_decode_string(quote_hex) {
            Some(q) => q,
            None => {
                return Err(Error::VerificationFailure);
            },
        };
        let rep = match verify_quote(&quote) {
            Ok(rep) => rep,
            Err(e) => {
                return Err(e);
            },
        };
        let attested = trim_trailing_zeros(&rep.report_data);
        let caller_bytes = caller.as_str().as_bytes_vec();
        if !vec_u8_eq(&attested, &caller_bytes) {
            return Err(Error::Unauthorized);
        }
        let rt3_hex = crate::hexcode::encode_hex(&rep.rtmr3);
        let ch = match verify_codehash(tcb_info.as_str(), rt3_hex.as_str()) {
            Ok(ch) => ch,
            Err(e) => {
                return Err(e);
            },
        };
        if !self.is_codehash_approved(&ch) {
            return Err(Error::Unauthorized);
        }
        let w = Worker {
            principal: caller.clone(),
            codehash: ch,
            checksum,
            is_active: true,
            registered_at: now,
        };
        self.upsert_worker(w);
        Ok(true)
    }

    /// Development registration: trust the caller's claimed codehash, but
    /// still require it to be approved. Never the default path.
    pub fn register_worker_dev(&mut self, caller: &String, codehash: String, now: u64) -> (r:
        Result<bool, Error>)
        requires
            old(self).wf(),
        ensures
            final(self).wf(),
            final(self).owner() == old(self).owner(),
            final(self).mpc() == old(self).mpc(),
            final(self).approved_seq() == old(self).approved_seq(),
            final(self).dispatches() == old(self).dispatches(),
            match r {
                Ok(ok) => ok && old(self).is_approved(codehash@) && final(self).workers() == old(self).workers().insert(
                    caller@,
                    WorkerView {
                        principal: caller@,
                        codehash: codehash@,
                        checksum: "dev"@,
                        is_active: true,
                        registered_at: now,
                    },
                ),
                Err(e) => *final(self) == *old(self) && e == Error::Unauthorized && !old(self).is_approved(codehash@),
            },
    {
        if !self.is_codehash_approved(&codehash) {
            return Err(Error::Unauthorized);
        }
        let w = Worker {
            principal: caller.clone(),
            codehash,
            checksum: String::from_str("dev"),
            is_active: true,
            registered_at: now,
        };
        self.upsert_worker(w);
        Ok(true)
    }

    /// Mark the caller's record inactive; the record itself stays.
    pub fn deactivate_worker(&mut self, caller: &String) -> (r: Result<(), Error>)
        requires
            old(self).wf(),
        ensures
            final(self).wf(),
            final(self).owner() == old(self).owner(),
            final(self).mpc() == old(self).mpc(),
            final(self).approved_seq() == old(self).approved_seq(),
            final(self).dispatches() == old(self).dispatches(),
            match r {
                Ok(()) => old(self).workers().contains_key(caller@) && final(self).workers()
                    == old(self).workers().insert(
                    caller@,
                    WorkerView { is_active: false, ..old(self).workers()[caller@] },
                ),
                Err(e) => *final(self) == *old(self) && e == Error::NotFound && !old(self).workers().contains_key(caller@),
            },
    {
        let i = match self.find_worker_index(caller) {
            Some(i) => i,
            None => {
                proof {
                    lemma_map_contains(worker_views(self.workers@), caller@);
                    if exists|k: int|
                        0 <= k < worker_views(self.workers@).len() && #[trigger] worker_views(
                            self.workers@,
                        )[k].principal == caller@ {
                        let k = choose|k: int|
                            0 <= k < worker_views(self.workers@).len() && #[trigger] worker_views(
                                self.workers@,
                            )[k].principal == caller@;
                        assert(self.workers@[k].principal@ == caller@);
                    }
                }
                return Err(Error::NotFound);
            },
        };
        proof {
            lemma_map_index(worker_views(self.workers@), i as int);
        }
        let mut w = self.workers.remove(i);
        proof {
            let old_views = worker_views(old(self).workers@);
            assert(worker_views(self.workers@) =~= old_views.remove(i as int));
        }
        w.is_active = false;
        let ghost mid_views = worker_views(self.workers@);
        self.workers.push(w);
        proof {
            let old_views = worker_views(old(self).workers@);
            lemma_map_remove(old_views, i as int);
            assert forall|a: int, b: int|
                0 <= a < b < mid_views.len() implies mid_views[a].principal
                != mid_views[b].principal by {
                let oa = if a < i {
                    a
                } else {
                    a + 1
                };
                let ob = if b < i {
                    b
                } else {
                    b + 1
                };
                assert(mid_views[a] == old_views[oa]);
                assert(mid_views[b] == old_views[ob]);
            }
            assert(worker_views(self.workers@) =~= mid_views.push(w@));
            lemma_map_push(mid_views, w@);
            assert forall|a: int, b: int|
                0 <= a < b < mid_views.push(w@).len() implies mid_views.push(w@)[a].principal
                != mid_views.push(w@)[b].principal by {
                if b < mid_views.len() {
                    assert(mid_views.push(w@)[a] == mid_views[a]);
                    assert(mid_views.push(w@)[b] == mid_views[b]);
                } else {
                    assert(mid_views.push(w@)[a] == mid_views[a]);
                    let oa = if a < i {
                        a
                    } else {
                        a + 1
                    };
                    assert(mid_views[a] == old_views[oa]);
                    assert(old_views[oa].principal != old_views[i as int].principal);
                    assert(mid_views.push(w@)[b] == w@);
                }
            }
            assert(workers_map_of(old_views).remove(w@.principal).insert(w@.principal, w@)
                =~= workers_map_of(old_views).insert(w@.principal, w@));
            assert(w@ =~= WorkerView { is_active: false, ..old(self).workers()[caller@] });
        }
        Ok(())
    }

    /// Gate check used by the dispatcher's worker-only operations.
    fn require_registered_worker(&self, caller: &String) -> (r: bool)
        requires
            self.wf(),
        ensures
            r == self.worker_gate(caller@),
    {
        match self.get_worker(caller) {
            Some(w) => {
                let ch = w.codehash.clone();
                self.is_codehash_approved(&ch)
            },
            None => false,
        }
    }

    /// The signing gate: authorize the caller and hand back the request to
    /// forward, unmodified, to the external signer. Approval membership is
    /// evaluated now, not at registration time.
    pub fn sign_tx(
        &self,
        caller: &String,
        payload: Vec<u8>,
        derivation_path: String,
        key_version: u32,
    ) -> (r: Result<SignRequest, Error>)
        requires
            self.wf(),
        ensures
            match r {
                Ok(req) => self.sign_allowed(caller@) && req.payload@ == payload@
                    && req.derivation_path@ == derivation_path@ && req.key_version == key_version,
                Err(e) => e == Error::Unauthorized && !self.sign_allowed(caller@),
            },
    {
        let active = match self.get_worker(caller) {
            Some(w) => w.is_active,
            None => {
                return Err(Error::Unauthorized);
            },
        };
        if !self.require_registered_worker(caller) {
            return Err(Error::Unauthorized);
        }
        if !active {
            return Err(Error::Unauthorized);
        }
        Ok(SignRequest { payload, derivation_path, key_version })
    }

    /// Worker-only: append one dispatch record to the log.
    pub fn record_dispatch(
        &mut self,
        caller: &String,
        rta_id: String,
        chunk_id: String,
        filecoin_cid: String,
        now: u64,
    ) -> (r: Result<(), Error>)
        requires
            old(self).wf(),
        ensures
            final(self).wf(),
            final(self).owner() == old(self).owner(),
            final(self).mpc() == old(self).mpc(),
            final(self).approved_seq() == old(self).approved_seq(),
            final(self).workers() == old(self).workers(),
            match r {
                Ok(()) => old(self).worker_gate(caller@) && final(self).dispatches() == old(self).dispatches().push(
                    DispatchView {
                        chunk_id: chunk_id@,
                        rta_id: rta_id@,
                        filecoin_cid: filecoin_cid@,
                        timestamp: now,
                    },
                ),
                Err(e) => *final(self) == *old(self) && e == Error::Unauthorized && !old(self).worker_gate(caller@),
            },
    {
        if !self.require_registered_worker(caller) {
            return Err(Error::Unauthorized);
        }
        let rec = DispatchRecord { chunk_id, rta_id, filecoin_cid, timestamp: now };
        let ghost old_views = dispatch_views(self.dispatch_records@);
        let ghost rv = rec@;
        self.dispatch_records.push(rec);
        proof {
            assert(dispatch_views(self.dispatch_records@) =~= old_views.push(rv));
        }
        Ok(())
    }

    /// The dispatch records for one asset, in log order.
    pub fn get_rta_dispatches(&self, rta_id: &String) -> (r: Vec<DispatchRecord>)
        ensures
            dispatch_views(r@) == filter_rta(self.dispatches(), rta_id@),
    {
        let mut out: Vec<DispatchRecord> = Vec::new();
        let mut i: usize = 0;
        while i < self.dispatch_records.len()
            invariant
                i <= self.dispatch_records@.len(),
                dispatch_views(out@) == filter_rta(
                    dispatch_views(self.dispatch_records@).take(i as int),
                    rta_id@,
                ),
            decreases self.dispatch_records@.len() - i,
        {
            let ghost pre = dispatch_views(self.dispatch_records@).take(i as int);
            let d = &self.dispatch_records[i];
            if str_eq(d.rta_id.as_str(), rta_id.as_str()) {
                out.push(
                    DispatchRecord {
                        chunk_id: d.chunk_id.clone(),
                        rta_id: d.rta_id.clone(),
                        filecoin_cid: d.filecoin_cid.clone(),
                        timestamp: d.timestamp,
                    },
                );
            }
            i = i + 1;
            proof {
                let cur = dispatch_views(self.dispatch_records@).take(i as int);
                assert(cur.drop_last() =~= pre);
                assert(cur.last() == self.dispatch_records@[i - 1]@);
                assert(dispatch_views(out@) =~= filter_rta(cur, rta_id@));
            }
        }
        proof {
            assert(dispatch_views(self.dispatch_records@).take(self.dispatch_records@.len() as int)
                =~= self.dispatches());
        }
        out
    }

    /// Worker-only: accept a randomness proof. The proof itself is not yet
    /// checked here; only registration is.
    pub fn submit_vrf_proof(&self, caller: &String, _payload: &Vec<u8>, _proof: &String) -> (r:
        Result<(), Error>)
        requires
            self.wf(),
        ensures
            match r {
                Ok(()) => self.workers().contains_key(caller@),
                Err(e) => e == Error::Unauthorized && !self.workers().contains_key(caller@),
            },
    {
        if self.is_worker_registered(caller) {
            Ok(())
        } else {
            Err(Error::Unauthorized)
        }
    }
}

/// Law, identity binding: however well the rest of the evidence checks out,
/// registration is refused whenever the identity embedded in the quote's
/// report data is not exactly the calling principal.
pub proof fn lemma_identity_binding(
    c: Contract,
    caller: Seq<char>,
    quote_hex: Seq<char>,
    collateral: Seq<char>,
    tcb_info: Seq<char>,
)
    requires
        spec_collateral(collateral) is Some,
        valid_hex(quote_hex),
        spec_verify_quote(hex_decode(quote_hex)) is Ok,
        trim_zeros(spec_verify_quote(hex_decode(quote_hex)).unwrap().report_data) != encode_utf8(
            caller,
        ),
    ensures
        c.spec_register_outcome(caller, quote_hex, collateral, tcb_info) == Err::<
            Seq<char>,
            Error,
        >(Error::Unauthorized),
{
}

/// Decode a hex string held in a `String`.
fn hex_decode_string(s: &String) -> (r: Option<Vec<u8>>)
    ensures
        match r {
            Some(bytes) => valid_hex(s@) && bytes@ == hex_decode(s@),
            None => !valid_hex(s@),
        },
{
    crate::hexcode::decode_hex(s.as_str())
}

} // verus!
