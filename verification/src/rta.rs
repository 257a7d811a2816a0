//! The real-time-asset ledger: per-asset metadata, delegated permissions,
//! chunk accumulation and finalization. The token mint itself and the
//! display metadata live with the host shell; this module owns and verifies
//! the bookkeeping rules.

use vstd::prelude::*;
use crate::collateral::str_eq;

verus! {

/// Failures of the asset ledger.
#[derive(Clone, Copy, PartialEq, Eq, Structural, Debug)]
pub enum RtaError {
    /// Caller is not the delegate, or lacks the needed permission.
    Unauthorized,
    /// No such asset or delegation.
    NotFound,
    /// The asset is closed; its chunk list is final.
    Closed,
    /// The attached deposit does not cover the creation cost.
    InsufficientDeposit,
    /// An asset with this identifier already exists.
    AlreadyExists,
}

/// Creation-time configuration of one asset.
#[derive(Debug)]
pub struct RTAConfig {
    pub mode: String,
    pub store_to_filecoin: bool,
    pub distance: Option<u32>,
    pub ticket_amount: Option<u32>,
    pub ticket_price: Option<String>,
    pub pay_per_stream: bool,
    pub stream_price: Option<String>,
    pub creator: String,
    pub created_at: u64,
}

#[verifier::ext_equal]
pub ghost struct RTAConfigView {
    pub mode: Seq<char>,
    pub store_to_filecoin: bool,
    pub distance: Option<u32>,
    pub ticket_amount: Option<u32>,
    pub ticket_price: Option<Seq<char>>,
    pub pay_per_stream: bool,
    pub stream_price: Option<Seq<char>>,
    pub creator: Seq<char>,
    pub created_at: u64,
}

pub open spec fn opt_str_view(o: Option<String>) -> Option<Seq<char>> {
    match o {
        Some(s) => Some(s@),
        None => None,
    }
}

impl View for RTAConfig {
    type V = RTAConfigView;

    open spec fn view(&self) -> RTAConfigView {
        RTAConfigView {
            mode: self.mode@,
            store_to_filecoin: self.store_to_filecoin,
            distance: self.distance,
            ticket_amount: self.ticket_amount,
            ticket_price: opt_str_view(self.ticket_price),
            pay_per_stream: self.pay_per_stream,
            stream_price: opt_str_view(self.stream_price),
            creator: self.creator@,
            created_at: self.created_at,
        }
    }
}

/// Ownership of one chunk: its index and its owner.
#[derive(Debug)]
pub struct ChunkOwner {
    pub chunk_index: u32,
    pub owner: String,
}

#[verifier::ext_equal]
pub ghost struct ChunkOwnerView {
    pub chunk_index: u32,
    pub owner: Seq<char>,
}

impl View for ChunkOwner {
    type V = ChunkOwnerView;

    open spec fn view(&self) -> ChunkOwnerView {
        ChunkOwnerView { chunk_index: self.chunk_index, owner: self.owner@ }
    }
}

/// Live metadata of one asset.
#[derive(Debug)]
pub struct RTAMetadata {
    pub rta_id: String,
    pub config: RTAConfig,
    pub is_live: bool,
    pub is_closed: bool,
    pub chunk_cids: Vec<String>,
    pub chunk_ownership: Vec<ChunkOwner>,
    pub total_chunks: u32,
    pub filecoin_master_cid: Option<String>,
}

#[verifier::ext_equal]
pub ghost struct RTAMetadataView {
    pub rta_id: Seq<char>,
    pub config: RTAConfigView,
    pub is_live: bool,
    pub is_closed: bool,
    pub chunk_cids: Seq<Seq<char>>,
    pub chunk_ownership: Seq<ChunkOwnerView>,
    pub total_chunks: u32,
    pub filecoin_master_cid: Option<Seq<char>>,
}

pub open spec fn str_views(ss: Seq<String>) -> Seq<Seq<char>> {
    ss.map_values(|s: String| s@)
}

pub open spec fn owner_views(os: Seq<ChunkOwner>) -> Seq<ChunkOwnerView> {
    os.map_values(|o: ChunkOwner| o@)
}

impl View for RTAMetadata {
    type V = RTAMetadataView;

    open spec fn view(&self) -> RTAMetadataView {
        RTAMetadataView {
            rta_id: self.rta_id@,
            config: self.config@,
            is_live: self.is_live,
            is_closed: self.is_closed,
            chunk_cids: str_views(self.chunk_cids@),
            chunk_ownership: owner_views(self.chunk_ownership@),
            total_chunks: self.total_chunks,
            filecoin_master_cid: opt_str_view(self.filecoin_master_cid),
        }
    }
}

/// A delegation of asset permissions, keyed by the asset it concerns.
#[derive(Debug)]
pub struct Delegation {
    pub rta_id: String,
    pub delegate: String,
    pub can_update: bool,
    pub can_finalize: bool,
}

#[verifier::ext_equal]
pub ghost struct DelegationView {
    pub rta_id: Seq<char>,
    pub delegate: Seq<char>,
    pub can_update: bool,
    pub can_finalize: bool,
}

impl View for Delegation {
    type V = DelegationView;

    open spec fn view(&self) -> DelegationView {
        DelegationView {
            rta_id: self.rta_id@,
            delegate: self.delegate@,
            can_update: self.can_update,
            can_finalize: self.can_finalize,
        }
    }
}

/// Creation cost: a flat base, plus surcharges for storage-network
/// persistence and for large groups, in the ledger's smallest unit.
pub open spec fn spec_min_deposit(c: RTAConfigView) -> int {
    let base: int = 10000000000000000000000;
    let with_fil: int = if c.store_to_filecoin {
        base + 5000000000000000000000
    } else {
        base
    };
    if c.mode == "group"@ && ticket_amount_or_zero(c) > 10 {
        with_fil + 5000000000000000000000
    } else {
        with_fil
    }
}

pub open spec fn ticket_amount_or_zero(c: RTAConfigView) -> u32 {
    match c.ticket_amount {
        Some(n) => n,
        None => 0u32,
    }
}

/// The fresh metadata of a newly created asset.
pub open spec fn initial_metadata(rta_id: Seq<char>, config: RTAConfigView) -> RTAMetadataView {
    RTAMetadataView {
        rta_id: rta_id,
        config: config,
        is_live: false,
        is_closed: false,
        chunk_cids: Seq::empty(),
        chunk_ownership: Seq::empty(),
        total_chunks: 0,
        filecoin_master_cid: None,
    }
}

/// The ownership entries appended when `n` chunks arrive with `owners`
/// claimed for a prefix of them, numbered from `total + 1` upward.
pub open spec fn new_ownership(total: int, n: int, owners: Seq<Seq<char>>) -> Seq<ChunkOwnerView> {
    Seq::new(
        if n <= owners.len() {
            n as nat
        } else {
            owners.len()
        },
        |j: int| ChunkOwnerView { chunk_index: (total + j + 1) as u32, owner: owners[j] },
    )
}

/// Metadata after appending `cids` with `owners`.
pub open spec fn add_cids_view(
    m: RTAMetadataView,
    cids: Seq<Seq<char>>,
    owners: Seq<Seq<char>>,
) -> RTAMetadataView {
    RTAMetadataView {
        chunk_cids: m.chunk_cids + cids,
        chunk_ownership: m.chunk_ownership + new_ownership(
            m.total_chunks as int,
            cids.len() as int,
            owners,
        ),
        total_chunks: (m.total_chunks + cids.len()) as u32,
        ..m
    }
}

/// Metadata after finalization.
pub open spec fn finalized_view(m: RTAMetadataView, master_cid: Seq<char>) -> RTAMetadataView {
    RTAMetadataView { is_closed: true, filecoin_master_cid: Some(master_cid), ..m }
}

/// The asset factory state: assets keyed by identifier and delegations
/// keyed by the asset they concern.
#[derive(Debug)]
pub struct RTAv2 {
    pub owner_id: String,
    pub rtas: Vec<RTAMetadata>,
    pub delegations: Vec<Delegation>,
}

impl RTAv2 {
    pub open spec fn rta_views(&self) -> Seq<RTAMetadataView> {
        self.rtas@.map_values(|m: RTAMetadata| m@)
    }

    pub open spec fn delegation_views(&self) -> Seq<DelegationView> {
        self.delegations@.map_values(|d: Delegation| d@)
    }

    pub open spec fn has_rta(&self, id: Seq<char>) -> bool {
        exists|i: int| 0 <= i < self.rta_views().len() && (#[trigger] self.rta_views()[i]).rta_id
            == id
    }

    pub open spec fn rta_index(&self, id: Seq<char>) -> int {
        choose|i: int|
            0 <= i < self.rta_views().len() && (#[trigger] self.rta_views()[i]).rta_id == id
    }

    /// The metadata of the asset `id`, meaningful when `has_rta(id)`.
    pub open spec fn rta_at(&self, id: Seq<char>) -> RTAMetadataView {
        self.rta_views()[self.rta_index(id)]
    }

    pub open spec fn has_delegation(&self, id: Seq<char>) -> bool {
        exists|i: int|
            0 <= i < self.delegation_views().len() && (#[trigger] self.delegation_views()[
                i
            ]).rta_id == id
    }

    pub open spec fn delegation_index(&self, id: Seq<char>) -> int {
        choose|i: int|
            0 <= i < self.delegation_views().len() && (#[trigger] self.delegation_views()[
                i
            ]).rta_id == id
    }

    /// The delegation for the asset `id`, meaningful when
    /// `has_delegation(id)`.
    pub open spec fn delegation_at(&self, id: Seq<char>) -> DelegationView {
        self.delegation_views()[self.delegation_index(id)]
    }

    /// Well-formed state: one asset and at most one delegation per
    /// identifier.
    pub open spec fn wf(&self) -> bool {
        &&& forall|i: int, j: int|
            0 <= i < j < self.rta_views().len() ==> self.rta_views()[i].rta_id
                != self.rta_views()[j].rta_id
        &&& forall|i: int, j: int|
            0 <= i < j < self.delegation_views().len() ==> self.delegation_views()[i].rta_id
                != self.delegation_views()[j].rta_id
    }

    /// Fresh factory state.
    pub fn new(owner_id: String) -> (c: RTAv2)
        ensures
            c.wf(),
            c.owner_id@ == owner_id@,
            c.rta_views() == Seq::<RTAMetadataView>::empty(),
            c.delegation_views() == Seq::<DelegationView>::empty(),
    {
        let c = RTAv2 { owner_id, rtas: Vec::new(), delegations: Vec::new() };
        proof {
            assert(c.rta_views() =~= Seq::<RTAMetadataView>::empty());
            assert(c.delegation_views() =~= Seq::<DelegationView>::empty());
        }
        c
    }

    /// Index of the asset `id`, if present.
    fn find_rta(&self, rta_id: &String) -> (r: Option<usize>)
        ensures
            match r {
                Some(i) => i < self.rtas@.len() && self.rtas@[i as int].rta_id@ == rta_id@,
                None => forall|i: int|
                    0 <= i < self.rtas@.len() ==> (#[trigger] self.rtas@[i]).rta_id@ != rta_id@,
            },
    {
        let mut i: usize = 0;
        while i < self.rtas.len()
            invariant
                i <= self.rtas@.len(),
                forall|k: int| 0 <= k < i ==> (#[trigger] self.rtas@[k]).rta_id@ != rta_id@,
            decreases self.rtas@.len() - i,
        {
            if str_eq(self.rtas[i].rta_id.as_str(), rta_id.as_str()) {
                return Some(i);
            }
            i = i + 1;
        }
        None
    }

    /// Index of the delegation for `id`, if present.
    fn find_delegation(&self, rta_id: &String) -> (r: Option<usize>)
        ensures
            match r {
                Some(i) => i < self.delegations@.len() && self.delegations@[i as int].rta_id@
                    == rta_id@,
                None => forall|i: int|
                    0 <= i < self.delegations@.len() ==> (#[trigger] self.delegations@[i]).rta_id@
                        != rta_id@,
            },
    {
        let mut i: usize = 0;
        while i < self.delegations.len()
            invariant
                i <= self.delegations@.len(),
                forall|k: int| 0 <= k < i ==> (#[trigger] self.delegations@[k]).rta_id@ != rta_id@,
            decreases self.delegations@.len() - i,
        {
            if str_eq(self.delegations[i].rta_id.as_str(), rta_id.as_str()) {
                return Some(i);
            }
            i = i + 1;
        }
        None
    }

    /// The minimum deposit for creating an asset under `config`.
    pub fn calculate_minimum_deposit(&self, config: &RTAConfig) -> (r: u128)
        ensures
            r as int == spec_min_deposit(config@),
    {
        proof {
            reveal_strlit("group");
        }
        let mut base: u128 = 10000000000000000000000;
        if config.store_to_filecoin {
            base = base + 5000000000000000000000;
        }
        let ticket_amount: u32 = match config.ticket_amount {
            Some(n) => n,
            None => 0,
        };
        if str_eq(config.mode.as_str(), "group") && ticket_amount > 10 {
            base = base + 5000000000000000000000;
        }
        base
    }

    /// Create an asset: requires a sufficient deposit and a fresh
    /// identifier. The token mint around it belongs to the host shell.
    pub fn create_rta(&mut self, rta_id: String, config: RTAConfig, deposit: u128) -> (r: Result<
        (),
        RtaError,
    >)
        requires
            old(self).wf(),
        ensures
            final(self).wf(),
            final(self).owner_id@ == old(self).owner_id@,
            final(self).delegation_views() == old(self).delegation_views(),
            match r {
                Ok(()) => deposit as int >= spec_min_deposit(config@) && !old(self).has_rta(
                    rta_id@,
                ) && final(self).rta_views() == old(self).rta_views().push(
                    initial_metadata(rta_id@, config@),
                ),
                Err(e) => *final(self) == *old(self) && ((e == RtaError::InsufficientDeposit
                    && (deposit as int) < spec_min_deposit(config@)) || (e == RtaError::AlreadyExists
                    && deposit as int >= spec_min_deposit(config@) && old(self).has_rta(rta_id@))),
            },
    {
        let min_deposit = self.calculate_minimum_deposit(&config);
        if deposit < min_deposit {
            return Err(RtaError::InsufficientDeposit);
        }
        match self.find_rta(&rta_id) {
            Some(i) => {
                proof {
                    assert(self.rta_views()[i as int].rta_id == rta_id@);
                }
                Err(RtaError::AlreadyExists)
            },
            None => {
                proof {
                    if self.has_rta(rta_id@) {
                        let i = choose|i: int|
                            0 <= i < self.rta_views().len() && (#[trigger] self.rta_views()[
                                i
                            ]).rta_id == rta_id@;
                        assert(self.rtas@[i].rta_id@ == rta_id@);
                    }
                }
                let ghost old_views = self.rta_views();
                let meta = RTAMetadata {
                    rta_id,
                    config,
                    is_live: false,
                    is_closed: false,
                    chunk_cids: Vec::new(),
                    chunk_ownership: Vec::new(),
                    total_chunks: 0,
                    filecoin_master_cid: None,
                };
                proof {
                    assert(meta@ =~= initial_metadata(meta.rta_id@, meta.config@));
                }
                self.rtas.push(meta);
                proof {
                    assert(self.rta_views() =~= old_views.push(initial_metadata(rta_id@, config@)));
                    assert forall|a: int, b: int|
                        0 <= a < b < self.rta_views().len() implies self.rta_views()[a].rta_id
                        != self.rta_views()[b].rta_id by {
                        if b < old_views.len() {
                            assert(self.rta_views()[a] == old_views[a]);
                            assert(self.rta_views()[b] == old_views[b]);
                        } else {
                            assert(self.rta_views()[a] == old_views[a]);
                            assert(old_views[a] == old(self).rtas@[a]@);
                            assert(old(self).rtas@[a].rta_id@ != rta_id@);
                            assert(self.rta_views()[b] == initial_metadata(rta_id@, config@));
                        }
                    }
                    assert forall|a: int, b: int|
                        0 <= a < b < self.delegation_views().len() implies self.delegation_views()[
                        a
                    ].rta_id != self.delegation_views()[b].rta_id by {
                        assert(self.delegation_views() =~= old(self).delegation_views());
                        assert(old(self).delegation_views()[a].rta_id != old(self).delegation_views()[b].rta_id);
                    }
                }
                Ok(())
            },
        }
    }

    /// Record or replace the delegation for one asset. The permission words
    /// recognized are `update_chunks` and `finalize_rta`.
    pub fn delegate_rta_permissions(
        &mut self,
        rta_id: String,
        delegate: String,
        permissions: &Vec<String>,
    )
        requires
            old(self).wf(),
        ensures
            final(self).wf(),
            final(self).owner_id@ == old(self).owner_id@,
            final(self).rta_views() == old(self).rta_views(),
            final(self).has_delegation(rta_id@),
            final(self).delegation_at(rta_id@) == (DelegationView {
                rta_id: rta_id@,
                delegate: delegate@,
                can_update: str_views(permissions@).contains("update_chunks"@),
                can_finalize: str_views(permissions@).contains("finalize_rta"@),
            }),
            forall|id: Seq<char>|
                id != rta_id@ ==> (#[trigger] final(self).has_delegation(id) <==> old(self).has_delegation(id)),
            forall|id: Seq<char>|
                id != rta_id@ && old(self).has_delegation(id) ==> #[trigger] final(self).delegation_at(id) == old(self).delegation_at(id),
    {
        proof {
            reveal_strlit("update_chunks");
            reveal_strlit("finalize_rta");
        }
        let mut can_update = false;
        let mut can_finalize = false;
        let mut i: usize = 0;
        while i < permissions.len()
            invariant
                i <= permissions@.len(),
                can_update == str_views(permissions@).take(i as int).contains("update_chunks"@),
                can_finalize == str_views(permissions@).take(i as int).contains("finalize_rta"@),
            decreases permissions@.len() - i,
        {
            let ghost pre = str_views(permissions@).take(i as int);
            if str_eq(permissions[i].as_str(), "update_chunks") {
                can_update = true;
            }
            if str_eq(permissions[i].as_str(), "finalize_rta") {
                can_finalize = true;
            }
            i = i + 1;
            proof {
                let cur = str_views(permissions@).take(i as int);
                assert(cur.drop_last() =~= pre);
                assert(cur.last() == permissions@[i - 1]@);
                if cur.contains("update_chunks"@) {
                    let k = choose|k: int| 0 <= k < cur.len() && cur[k] == "update_chunks"@;
                    if k < i - 1 {
                        assert(pre[k] == "update_chunks"@);
                    }
                }
                if pre.contains("update_chunks"@) {
                    let k = choose|k: int| 0 <= k < pre.len() && pre[k] == "update_chunks"@;
                    assert(cur[k] == "update_chunks"@);
                }
                if cur.contains("finalize_rta"@) {
                    let k = choose|k: int| 0 <= k < cur.len() && cur[k] == "finalize_rta"@;
                    if k < i - 1 {
                        assert(pre[k] == "finalize_rta"@);
                    }
                }
                if pre.contains("finalize_rta"@) {
                    let k = choose|k: int| 0 <= k < pre.len() && pre[k] == "finalize_rta"@;
                    assert(cur[k] == "finalize_rta"@);
                }
            }
        }
        proof {
            assert(str_views(permissions@).take(permissions@.len() as int) =~= str_views(
                permissions@,
            ));
        }
        let d = Delegation { rta_id, delegate, can_update, can_finalize };
        self.upsert_delegation(d);
    }

    /// Replace or create the delegation for `d.rta_id`.
    fn upsert_delegation(&mut self, d: Delegation)
        requires
            old(self).wf(),
        ensures
            final(self).wf(),
            final(self).owner_id@ == old(self).owner_id@,
            final(self).rta_views() == old(self).rta_views(),
            final(self).has_delegation(d.rta_id@),
            final(self).delegation_at(d.rta_id@) == d@,
            forall|id: Seq<char>|
                id != d.rta_id@ ==> (#[trigger] final(self).has_delegation(id) <==> old(self).has_delegation(id)),
            forall|id: Seq<char>|
                id != d.rta_id@ && old(self).has_delegation(id) ==> #[trigger] final(self).delegation_at(id) == old(self).delegation_at(id),
    {
        let ghost old_views = self.delegation_views();
        let ghost dv = d@;
        match self.find_delegation(&d.rta_id) {
            Some(i) => {
                self.delegations.remove(i);
                proof {
                    assert(self.delegation_views() =~= old_views.remove(i as int));
                    assert(old_views[i as int].rta_id == dv.rta_id);
                }
                let ghost mid_views = self.delegation_views();
                proof {
                    assert forall|k: int|
                        0 <= k < mid_views.len() implies (#[trigger] mid_views[k]).rta_id
                        != dv.rta_id by {
                        let ok = if k < i {
                            k
                        } else {
                            k + 1
                        };
                        assert(mid_views[k] == old_views[ok]);
                        if ok < i {
                            assert(old_views[ok].rta_id != old_views[i as int].rta_id);
                        } else {
                            assert(old_views[i as int].rta_id != old_views[ok].rta_id);
                        }
                    }
                }
                self.delegations.push(d);
                proof {
                    assert(self.delegation_views() =~= mid_views.push(dv));
                    assert(0 <= i as int && (i as int) < old_views.len() && old_views[
                        i as int
                    ].rta_id == dv.rta_id && mid_views == old_views.remove(i as int));
                    delegation_upsert_post(old_views, mid_views, *self, *old(self), dv);
                }
            },
            None => {
                proof {
                    assert forall|k: int|
                        0 <= k < old_views.len() implies (#[trigger] old_views[k]).rta_id
                        != dv.rta_id by {
                        assert(old_views[k] == old(self).delegations@[k]@);
                    }
                }
                self.delegations.push(d);
                proof {
                    assert(self.delegation_views() =~= old_views.push(dv));
                    delegation_upsert_post(old_views, old_views, *self, *old(self), dv);
                }
            },
        }
    }

    /// Whether `delegate` holds any permission over the asset `rta_id`.
    pub fn check_delegation(&self, rta_id: &String, delegate: &String) -> (r: bool)
        requires
            self.wf(),
        ensures
            r == (self.has_delegation(rta_id@) && self.delegation_at(rta_id@).delegate == delegate@
                && (self.delegation_at(rta_id@).can_update || self.delegation_at(
                rta_id@,
            ).can_finalize)),
    {
        match self.find_delegation(rta_id) {
            Some(i) => {
                proof {
                    lemma_delegation_at(*self, i as int);
                }
                let d = &self.delegations[i];
                str_eq(d.delegate.as_str(), delegate.as_str()) && (d.can_update || d.can_finalize)
            },
            None => {
                proof {
                    if self.has_delegation(rta_id@) {
                        let k = self.delegation_index(rta_id@);
                        assert(self.delegations@[k].rta_id@ == rta_id@);
                    }
                }
                false
            },
        }
    }

    /// The metadata of one asset, if it exists.
    pub fn get_rta_metadata(&self, rta_id: &String) -> (r: Option<&RTAMetadata>)
        requires
            self.wf(),
        ensures
            match r {
                Some(m) => self.has_rta(rta_id@) && m@ == self.rta_at(rta_id@),
                None => !self.has_rta(rta_id@),
            },
    {
        match self.find_rta(rta_id) {
            Some(i) => {
                proof {
                    lemma_rta_at(*self, i as int);
                }
                Some(&self.rtas[i])
            },
            None => {
                proof {
                    if self.has_rta(rta_id@) {
                        let k = self.rta_index(rta_id@);
                        assert(self.rtas@[k].rta_id@ == rta_id@);
                    }
                }
                None
            },
        }
    }

    /// The caller may extend the asset's chunk list.
    pub open spec fn update_allowed(&self, caller: Seq<char>, id: Seq<char>) -> bool {
        &&& self.has_delegation(id)
        &&& self.delegation_at(id).delegate == caller
        &&& self.delegation_at(id).can_update
    }

    /// The caller may finalize the asset.
    pub open spec fn finalize_allowed(&self, caller: Seq<char>, id: Seq<char>) -> bool {
        &&& self.has_delegation(id)
        &&& self.delegation_at(id).delegate == caller
        &&& self.delegation_at(id).can_finalize
    }

    /// Check the delegation gate for one asset: the delegation must exist,
    /// name the caller, and grant the wanted permission.
    fn delegation_gate(&self, caller: &String, rta_id: &String, want_update: bool) -> (r: Result<
        (),
        RtaError,
    >)
        requires
            self.wf(),
        ensures
            match r {
                Ok(()) => if want_update {
                    self.update_allowed(caller@, rta_id@)
                } else {
                    self.finalize_allowed(caller@, rta_id@)
                },
                Err(e) => ((e == RtaError::NotFound && !self.has_delegation(rta_id@)) || (e
                    == RtaError::Unauthorized && self.has_delegation(rta_id@) && !(if want_update {
                    self.update_allowed(caller@, rta_id@)
                } else {
                    self.finalize_allowed(caller@, rta_id@)
                }))),
            },
    {
        match self.find_delegation(rta_id) {
            Some(i) => {
                proof {
                    lemma_delegation_at(*self, i as int);
                }
                let d = &self.delegations[i];
                let perm = if want_update {
                    d.can_update
                } else {
                    d.can_finalize
                };
                if str_eq(d.delegate.as_str(), caller.as_str()) && perm {
                    Ok(())
                } else {
                    Err(RtaError::Unauthorized)
                }
            },
            None => {
                proof {
                    if self.has_delegation(rta_id@) {
                        let k = self.delegation_index(rta_id@);
                        assert(self.delegations@[k].rta_id@ == rta_id@);
                    }
                }
                Err(RtaError::NotFound)
            },
        }
    }

    /// Append chunk identifiers (and their claimed owners) to an open
    /// asset. Only the delegate with the update permission may call; a
    /// closed asset refuses.
    pub fn add_cids(
        &mut self,
        caller: &String,
        rta_id: &String,
        cids: &Vec<String>,
        chunk_owners: &Vec<String>,
    ) -> (r: Result<(), RtaError>)
        requires
            old(self).wf(),
            old(self).has_rta(rta_id@) ==> old(self).rta_at(rta_id@).total_chunks + cids@.len()
                <= u32::MAX,
        ensures
            final(self).wf(),
            final(self).owner_id@ == old(self).owner_id@,
            final(self).delegation_views() == old(self).delegation_views(),
            match r {
                Ok(()) => old(self).update_allowed(caller@, rta_id@) && old(self).has_rta(rta_id@)
                    && !old(self).rta_at(rta_id@).is_closed && final(self).has_rta(rta_id@)
                    && final(self).rta_at(rta_id@) == add_cids_view(
                    old(self).rta_at(rta_id@),
                    str_views(cids@),
                    str_views(chunk_owners@),
                ) && (forall|id: Seq<char>|
                    id != rta_id@ ==> (#[trigger] final(self).has_rta(id) <==> old(self).has_rta(
                        id,
                    ))) && (forall|id: Seq<char>|
                    id != rta_id@ && old(self).has_rta(id) ==> #[trigger] final(self).rta_at(id)
                        == old(self).rta_at(id)),
                Err(e) => *final(self) == *old(self) && ((e == RtaError::NotFound && !old(self).has_delegation(rta_id@)) || (e == RtaError::Unauthorized && old(self).has_delegation(rta_id@) && !old(self).update_allowed(caller@, rta_id@)) || (e
                    == RtaError::NotFound && old(self).update_allowed(caller@, rta_id@) && !old(self).has_rta(rta_id@)) || (e == RtaError::Closed && old(self).update_allowed(
                    caller@,
                    rta_id@,
                ) && old(self).has_rta(rta_id@) && old(self).rta_at(rta_id@).is_closed)),
            },
    {
        if let Err(e) = self.delegation_gate(caller, rta_id, true) {
            return Err(e);
        }
        let i = match self.find_rta(rta_id) {
            Some(i) => i,
            None => {
                proof {
                    if self.has_rta(rta_id@) {
                        let k = self.rta_index(rta_id@);
                        assert(self.rtas@[k].rta_id@ == rta_id@);
                    }
                }
                return Err(RtaError::NotFound);
            },
        };
        proof {
            lemma_rta_at(*self, i as int);
        }
        if self.rtas[i].is_closed {
            return Err(RtaError::Closed);
        }
        let ghost old_views = self.rta_views();
        let ghost old_m = self.rta_views()[i as int];
        let mut m = self.rtas.remove(i);
        proof {
            assert(self.rta_views() =~= old_views.remove(i as int));
        }
        let ghost mid_views = self.rta_views();
        let ghost base_cids = str_views(m.chunk_cids@);
        let ghost base_own = owner_views(m.chunk_ownership@);
        let ghost base_total = m.total_chunks as int;
        let mut j: usize = 0;
        while j < cids.len()
            invariant
                j <= cids@.len(),
                base_total + cids@.len() <= u32::MAX,
                m.total_chunks as int == base_total + j as int,
                m.rta_id@ == old_m.rta_id,
                m.config@ == old_m.config,
                m.is_live == old_m.is_live,
                m.is_closed == old_m.is_closed,
                m.filecoin_master_cid == old(self).rtas@[i as int].filecoin_master_cid,
                str_views(m.chunk_cids@) == base_cids + str_views(cids@).take(j as int),
                owner_views(m.chunk_ownership@) == base_own + new_ownership(
                    base_total,
                    j as int,
                    str_views(chunk_owners@),
                ),
            decreases cids@.len() - j,
        {
            let ghost pre_cids = str_views(m.chunk_cids@);
            let ghost pre_own = owner_views(m.chunk_ownership@);
            m.chunk_cids.push(cids[j].clone());
            if j < chunk_owners.len() {
                m.chunk_ownership.push(
                    ChunkOwner { chunk_index: m.total_chunks + 1, owner: chunk_owners[j].clone() },
                );
            }
            m.total_chunks = m.total_chunks + 1;
            j = j + 1;
            proof {
                assert(str_views(m.chunk_cids@) =~= pre_cids.push(cids@[j - 1]@));
                assert(base_cids + str_views(cids@).take(j as int) =~= pre_cids.push(
                    cids@[j - 1]@,
                ));
                if j - 1 < chunk_owners@.len() {
                    assert(owner_views(m.chunk_ownership@) =~= pre_own.push(
                        ChunkOwnerView {
                            chunk_index: (base_total + j) as u32,
                            owner: chunk_owners@[j - 1]@,
                        },
                    ));
                    assert(base_own + new_ownership(base_total, j as int, str_views(chunk_owners@))
                        =~= pre_own.push(
                        ChunkOwnerView {
                            chunk_index: (base_total + j) as u32,
                            owner: chunk_owners@[j - 1]@,
                        },
                    ));
                } else {
                    assert(base_own + new_ownership(base_total, j as int, str_views(chunk_owners@))
                        =~= pre_own);
                }
            }
        }
        proof {
            assert(str_views(cids@).take(cids@.len() as int) =~= str_views(cids@));
            assert(m@ =~= add_cids_view(old_m, str_views(cids@), str_views(chunk_owners@)));
        }
        let ghost mv = m@;
        self.rtas.push(m);
        proof {
            assert(self.rta_views() =~= mid_views.push(mv));
            assert(mv.rta_id == old_m.rta_id);
            rta_upsert_post(old_views, mid_views, *self, *old(self), mv, i as int);
        }
        Ok(())
    }

    /// Close an asset and record its master content identifier. Only the
    /// delegate with the finalize permission may call; a closed asset
    /// refuses.
    pub fn finalize(&mut self, caller: &String, rta_id: &String, filecoin_master_cid: String) -> (r:
        Result<(), RtaError>)
        requires
            old(self).wf(),
        ensures
            final(self).wf(),
            final(self).owner_id@ == old(self).owner_id@,
            final(self).delegation_views() == old(self).delegation_views(),
            match r {
                Ok(()) => old(self).finalize_allowed(caller@, rta_id@) && old(self).has_rta(
                    rta_id@,
                ) && !old(self).rta_at(rta_id@).is_closed && final(self).has_rta(rta_id@) && final(self).rta_at(rta_id@) == finalized_view(
                    old(self).rta_at(rta_id@),
                    filecoin_master_cid@,
                ) && (forall|id: Seq<char>|
                    id != rta_id@ ==> (#[trigger] final(self).has_rta(id) <==> old(self).has_rta(
                        id,
                    ))) && (forall|id: Seq<char>|
                    id != rta_id@ && old(self).has_rta(id) ==> #[trigger] final(self).rta_at(id)
                        == old(self).rta_at(id)),
                Err(e) => *final(self) == *old(self) && ((e == RtaError::NotFound && !old(self).has_delegation(rta_id@)) || (e == RtaError::Unauthorized && old(self).has_delegation(rta_id@) && !old(self).finalize_allowed(caller@, rta_id@)) || (e
                    == RtaError::NotFound && old(self).finalize_allowed(caller@, rta_id@) && !old(self).has_rta(rta_id@)) || (e == RtaError::Closed && old(self).finalize_allowed(
                    caller@,
                    rta_id@,
                ) && old(self).has_rta(rta_id@) && old(self).rta_at(rta_id@).is_closed)),
            },
    {
        if let Err(e) = self.delegation_gate(caller, rta_id, false) {
            return Err(e);
        }
        let i = match self.find_rta(rta_id) {
            Some(i) => i,
            None => {
                proof {
                    if self.has_rta(rta_id@) {
                        let k = self.rta_index(rta_id@);
                        assert(self.rtas@[k].rta_id@ == rta_id@);
                    }
                }
                return Err(RtaError::NotFound);
            },
        };
        proof {
            lemma_rta_at(*self, i as int);
        }
        if self.rtas[i].is_closed {
            return Err(RtaError::Closed);
        }
        let ghost old_views = self.rta_views();
        let ghost old_m = self.rta_views()[i as int];
        let mut m = self.rtas.remove(i);
        proof {
            assert(self.rta_views() =~= old_views.remove(i as int));
        }
        let ghost mid_views = self.rta_views();
        m.is_closed = true;
        m.filecoin_master_cid = Some(filecoin_master_cid);
        proof {
            assert(m@ =~= finalized_view(old_m, m.filecoin_master_cid.unwrap()@));
        }
        let ghost mv = m@;
        self.rtas.push(m);
        proof {
            assert(self.rta_views() =~= mid_views.push(mv));
            rta_upsert_post(old_views, mid_views, *self, *old(self), mv, i as int);
        }
        Ok(())
    }

    /// Whether the asset exists and is closed.
    pub fn is_closed(&self, rta_id: &String) -> (r: bool)
        requires
            self.wf(),
        ensures
            r == (self.has_rta(rta_id@) && self.rta_at(rta_id@).is_closed),
    {
        match self.get_rta_metadata(rta_id) {
            Some(m) => m.is_closed,
            None => false,
        }
    }
}

/// The asset element at a found index is the asset the identifier denotes.
proof fn lemma_rta_at(c: RTAv2, i: int)
    requires
        c.wf(),
        0 <= i < c.rta_views().len(),
    ensures
        c.has_rta(c.rta_views()[i].rta_id),
        c.rta_at(c.rta_views()[i].rta_id) == c.rta_views()[i],
{
    let id = c.rta_views()[i].rta_id;
    assert(c.has_rta(id));
    let k = c.rta_index(id);
    if k != i {
        if k < i {
            assert(c.rta_views()[k].rta_id != c.rta_views()[i].rta_id);
        } else {
            assert(c.rta_views()[i].rta_id != c.rta_views()[k].rta_id);
        }
    }
}

/// The delegation element at a found index is the delegation the
/// identifier denotes.
proof fn lemma_delegation_at(c: RTAv2, i: int)
    requires
        c.wf(),
        0 <= i < c.delegation_views().len(),
    ensures
        c.has_delegation(c.delegation_views()[i].rta_id),
        c.delegation_at(c.delegation_views()[i].rta_id) == c.delegation_views()[i],
{
    let id = c.delegation_views()[i].rta_id;
    assert(c.has_delegation(id));
    let k = c.delegation_index(id);
    if k != i {
        if k < i {
            assert(c.delegation_views()[k].rta_id != c.delegation_views()[i].rta_id);
        } else {
            assert(c.delegation_views()[i].rta_id != c.delegation_views()[k].rta_id);
        }
    }
}

/// After removing the asset at `i` and pushing its replacement under the
/// same identifier, the asset map reads as updated at that identifier and
/// unchanged elsewhere.
proof fn rta_upsert_post(
    old_views: Seq<RTAMetadataView>,
    mid_views: Seq<RTAMetadataView>,
    new: RTAv2,
    old_state: RTAv2,
    mv: RTAMetadataView,
    i: int,
)
    requires
        old_state.wf(),
        0 <= i < old_views.len(),
        old_state.rta_views() == old_views,
        old_views[i].rta_id == mv.rta_id,
        mid_views == old_views.remove(i),
        new.rta_views() == mid_views.push(mv),
        new.delegations == old_state.delegations,
        new.owner_id == old_state.owner_id,
    ensures
        new.wf(),
        new.has_rta(mv.rta_id),
        new.rta_at(mv.rta_id) == mv,
        forall|id: Seq<char>|
            id != mv.rta_id ==> (#[trigger] new.has_rta(id) <==> old_state.has_rta(id)),
        forall|id: Seq<char>|
            id != mv.rta_id && old_state.has_rta(id) ==> #[trigger] new.rta_at(id)
                == old_state.rta_at(id),
{
    let nv = new.rta_views();
    assert forall|k: int|
        0 <= k < mid_views.len() implies (#[trigger] mid_views[k]).rta_id != mv.rta_id by {
        let ok = if k < i {
            k
        } else {
            k + 1
        };
        assert(mid_views[k] == old_views[ok]);
        if ok < i {
            assert(old_views[ok].rta_id != old_views[i].rta_id);
        } else {
            assert(old_views[i].rta_id != old_views[ok].rta_id);
        }
    }
    assert forall|a: int, b: int|
        0 <= a < b < nv.len() implies nv[a].rta_id != nv[b].rta_id by {
        let oa = if a < i {
            a
        } else {
            a + 1
        };
        assert(nv[a] == mid_views[a]);
        assert(mid_views[a] == old_views[oa]);
        if b < mid_views.len() {
            let ob = if b < i {
                b
            } else {
                b + 1
            };
            assert(nv[b] == mid_views[b]);
            assert(mid_views[b] == old_views[ob]);
        } else {
            assert(nv[b] == mv);
        }
    }
    assert(new.delegation_views() == old_state.delegation_views());
    assert(nv[nv.len() - 1] == mv);
    assert(new.has_rta(mv.rta_id));
    let kk = new.rta_index(mv.rta_id);
    if kk != nv.len() - 1 {
        if kk < nv.len() - 1 {
            assert(nv[kk].rta_id != nv[nv.len() - 1].rta_id);
        }
    }
    assert forall|id: Seq<char>|
        id != mv.rta_id implies (#[trigger] new.has_rta(id) <==> old_state.has_rta(id)) by {
        if new.has_rta(id) {
            let k = choose|k: int| 0 <= k < nv.len() && (#[trigger] nv[k]).rta_id == id;
            assert(k < mid_views.len());
            let ok = if k < i {
                k
            } else {
                k + 1
            };
            assert(mid_views[k] == old_views[ok]);
            assert(old_views[ok].rta_id == id);
        }
        if old_state.has_rta(id) {
            let k = choose|k: int|
                0 <= k < old_views.len() && (#[trigger] old_views[k]).rta_id == id;
            assert(k != i);
            if k < i {
                assert(nv[k].rta_id == id);
            } else {
                assert(nv[k - 1].rta_id == id);
            }
        }
    }
    assert forall|id: Seq<char>|
        id != mv.rta_id && old_state.has_rta(id) implies #[trigger] new.rta_at(id)
            == old_state.rta_at(id) by {
        if old_state.has_rta(id) {
            let k = choose|k: int|
                0 <= k < old_views.len() && (#[trigger] old_views[k]).rta_id == id;
            assert(k != i);
            if k < i {
                assert(nv[k].rta_id == id);
            } else {
                assert(nv[k - 1].rta_id == id);
            }
            assert(new.has_rta(id));
            let a = old_state.rta_index(id);
            let b = new.rta_index(id);
            assert(old_views[a].rta_id == id);
            assert(nv[b].rta_id == id);
            assert(b < mid_views.len());
            let ob = if b < i {
                b
            } else {
                b + 1
            };
            assert(nv[b] == old_views[ob]);
            if ob != a {
                if ob < a {
                    assert(old_views[ob].rta_id != old_views[a].rta_id);
                } else {
                    assert(old_views[a].rta_id != old_views[ob].rta_id);
                }
            }
        }
    }
}

/// After removing any old delegation for a key and pushing the new one, the
/// delegation map reads as updated at that key and unchanged elsewhere.
proof fn delegation_upsert_post(
    old_views: Seq<DelegationView>,
    mid_views: Seq<DelegationView>,
    new: RTAv2,
    old_state: RTAv2,
    dv: DelegationView,
)
    requires
        old_state.wf(),
        new.delegation_views() == mid_views.push(dv),
        new.rtas == old_state.rtas,
        new.owner_id == old_state.owner_id,
        old_state.delegation_views() == old_views,
        forall|k: int| 0 <= k < mid_views.len() ==> (#[trigger] mid_views[k]).rta_id != dv.rta_id,
        mid_views == old_views || (exists|i: int|
            0 <= i < old_views.len() && (#[trigger] old_views[i]).rta_id == dv.rta_id && mid_views
                == old_views.remove(i)),
        forall|a: int, b: int|
            0 <= a < b < old_views.len() ==> old_views[a].rta_id != old_views[b].rta_id,
    ensures
        new.wf(),
        new.has_delegation(dv.rta_id),
        new.delegation_at(dv.rta_id) == dv,
        forall|id: Seq<char>|
            id != dv.rta_id ==> (#[trigger] new.has_delegation(id) <==> old_state.has_delegation(
                id,
            )),
        forall|id: Seq<char>|
            id != dv.rta_id && old_state.has_delegation(id) ==> #[trigger] new.delegation_at(id)
                == old_state.delegation_at(id),
{
    let nv = new.delegation_views();
    // uniqueness of mid_views
    if mid_views == old_views {
        assert(forall|a: int, b: int|
            0 <= a < b < mid_views.len() ==> mid_views[a].rta_id != mid_views[b].rta_id);
    } else {
        let i = choose|i: int|
            0 <= i < old_views.len() && (#[trigger] old_views[i]).rta_id == dv.rta_id && mid_views
                == old_views.remove(i);
        assert forall|a: int, b: int|
            0 <= a < b < mid_views.len() implies mid_views[a].rta_id != mid_views[b].rta_id by {
            let oa = if a < i {
                a
            } else {
                a + 1
            };
            let ob = if b < i {
                b
            } else {
                b + 1
            };
            assert(mid_views[a] == old_views[oa]);
            assert(mid_views[b] == old_views[ob]);
        }
    }
    // uniqueness of nv, membership in nv
    assert forall|a: int, b: int|
        0 <= a < b < nv.len() implies nv[a].rta_id != nv[b].rta_id by {
        assert(nv[a] == mid_views[a]);
        if b < mid_views.len() {
            assert(nv[b] == mid_views[b]);
        } else {
            assert(nv[b] == dv);
        }
    }
    assert(nv[nv.len() - 1] == dv);
    assert(new.has_delegation(dv.rta_id));
    let k = new.delegation_index(dv.rta_id);
    if k != nv.len() - 1 {
        assert(nv[k].rta_id != nv[nv.len() - 1].rta_id);
    }
    // other keys
    assert forall|id: Seq<char>|
        id != dv.rta_id implies (#[trigger] new.has_delegation(id) <==> old_state.has_delegation(
            id,
        )) by {
        lemma_member_transfer(old_views, mid_views, nv, dv, id);
    }
    assert forall|id: Seq<char>|
        id != dv.rta_id && old_state.has_delegation(id) implies #[trigger] new.delegation_at(id)
            == old_state.delegation_at(id) by {
        lemma_member_transfer(old_views, mid_views, nv, dv, id);
        let a = old_state.delegation_index(id);
        let b = new.delegation_index(id);
        assert(old_views[a].rta_id == id);
        assert(nv[b].rta_id == id);
        lemma_value_transfer(old_views, mid_views, nv, dv, id, a, b);
    }
}

/// Membership at other keys survives an upsert in both directions.
proof fn lemma_member_transfer(
    old_views: Seq<DelegationView>,
    mid_views: Seq<DelegationView>,
    nv: Seq<DelegationView>,
    dv: DelegationView,
    id: Seq<char>,
)
    requires
        id != dv.rta_id,
        nv == mid_views.push(dv),
        mid_views == old_views || (exists|i: int|
            0 <= i < old_views.len() && (#[trigger] old_views[i]).rta_id == dv.rta_id && mid_views
                == old_views.remove(i)),
    ensures
        (exists|k: int| 0 <= k < nv.len() && (#[trigger] nv[k]).rta_id == id) <==> (exists|k: int|
            0 <= k < old_views.len() && (#[trigger] old_views[k]).rta_id == id),
{
    if mid_views == old_views {
        if exists|k: int| 0 <= k < nv.len() && (#[trigger] nv[k]).rta_id == id {
            let k = choose|k: int| 0 <= k < nv.len() && (#[trigger] nv[k]).rta_id == id;
            assert(k < mid_views.len());
            assert(old_views[k].rta_id == id);
        }
        if exists|k: int| 0 <= k < old_views.len() && (#[trigger] old_views[k]).rta_id == id {
            let k = choose|k: int|
                0 <= k < old_views.len() && (#[trigger] old_views[k]).rta_id == id;
            assert(nv[k].rta_id == id);
        }
    } else {
        let i = choose|i: int|
            0 <= i < old_views.len() && (#[trigger] old_views[i]).rta_id == dv.rta_id && mid_views
                == old_views.remove(i);
        if exists|k: int| 0 <= k < nv.len() && (#[trigger] nv[k]).rta_id == id {
            let k = choose|k: int| 0 <= k < nv.len() && (#[trigger] nv[k]).rta_id == id;
            assert(k < mid_views.len());
            if k < i {
                assert(old_views[k].rta_id == id);
            } else {
                assert(old_views[k + 1].rta_id == id);
            }
        }
        if exists|k: int| 0 <= k < old_views.len() && (#[trigger] old_views[k]).rta_id == id {
            let k = choose|k: int|
                0 <= k < old_views.len() && (#[trigger] old_views[k]).rta_id == id;
            assert(k != i);
            if k < i {
                assert(nv[k].rta_id == id);
            } else {
                assert(nv[k - 1].rta_id == id);
            }
        }
    }
}

/// The record at another key is unchanged by an upsert.
proof fn lemma_value_transfer(
    old_views: Seq<DelegationView>,
    mid_views: Seq<DelegationView>,
    nv: Seq<DelegationView>,
    dv: DelegationView,
    id: Seq<char>,
    a: int,
    b: int,
)
    requires
        id != dv.rta_id,
        nv == mid_views.push(dv),
        mid_views == old_views || (exists|i: int|
            0 <= i < old_views.len() && (#[trigger] old_views[i]).rta_id == dv.rta_id && mid_views
                == old_views.remove(i)),
        forall|x: int, y: int|
            0 <= x < y < old_views.len() ==> old_views[x].rta_id != old_views[y].rta_id,
        0 <= a < old_views.len(),
        0 <= b < nv.len(),
        old_views[a].rta_id == id,
        nv[b].rta_id == id,
    ensures
        nv[b] == old_views[a],
{
    assert(b < mid_views.len());
    if mid_views == old_views {
        if a != b {
            if a < b {
                assert(old_views[a].rta_id != old_views[b].rta_id);
            } else {
                assert(old_views[b].rta_id != old_views[a].rta_id);
            }
        }
    } else {
        let i = choose|i: int|
            0 <= i < old_views.len() && (#[trigger] old_views[i]).rta_id == dv.rta_id && mid_views
                == old_views.remove(i);
        let ob = if b < i {
            b
        } else {
            b + 1
        };
        assert(nv[b] == old_views[ob]);
        if ob != a {
            if ob < a {
                assert(old_views[ob].rta_id != old_views[a].rta_id);
            } else {
                assert(old_views[a].rta_id != old_views[ob].rta_id);
            }
        }
    }
}

} // verus!
