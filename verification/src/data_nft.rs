use vstd::prelude::*;
use crate::principal::Principal;
use crate::assoc::{
    map_of, distinct_keys, lemma_map_of_index, lemma_map_of_absent, lemma_map_of_push,
    lemma_map_of_update,
};

verus! {

/// A tokenized data asset: an off-chain dataset referenced by URI, with a
/// price for access grants and a transferability flag.
#[derive(Debug, PartialEq, Eq)]
pub struct DataNFT {
    pub token_id: u128,
    pub owner: Principal,
    pub data_uri: String,
    pub privacy_level: u8,
    pub minted_at: u64,
    pub access_price: u128,
    pub is_transferable: bool,
}

impl Clone for DataNFT {
    fn clone(&self) -> (r: Self)
        ensures
            r == *self,
    {
        DataNFT {
            token_id: self.token_id,
            owner: self.owner,
            data_uri: self.data_uri.clone(),
            privacy_level: self.privacy_level,
            minted_at: self.minted_at,
            access_price: self.access_price,
            is_transferable: self.is_transferable,
        }
    }
}

/// Emitted when an asset is minted.
#[derive(PartialEq, Eq, Debug)]
pub struct NFTMinted {
    pub token_id: u128,
    pub owner: Principal,
    pub data_uri: String,
    pub privacy_level: u8,
}

/// Emitted when an asset changes owner.
#[derive(Clone, Copy, PartialEq, Eq, Structural, Debug)]
pub struct NFTTransferred {
    pub token_id: u128,
    pub from: Principal,
    pub to: Principal,
}

/// Emitted when the owner approves a principal for an asset.
#[derive(Clone, Copy, PartialEq, Eq, Structural, Debug)]
pub struct NFTApproved {
    pub token_id: u128,
    pub owner: Principal,
    pub approved: Principal,
}

/// Emitted when access to an asset is granted.
#[derive(Clone, Copy, PartialEq, Eq, Structural, Debug)]
pub struct AccessGranted {
    pub token_id: u128,
    pub grantee: Principal,
    pub payment: u128,
}

/// Emitted when access to an asset is revoked.
#[derive(Clone, Copy, PartialEq, Eq, Structural, Debug)]
pub struct AccessRevoked {
    pub token_id: u128,
    pub grantee: Principal,
}

/// Emitted when the owner changes an asset's data URI.
#[derive(PartialEq, Eq, Debug)]
pub struct DataURIUpdated {
    pub token_id: u128,
    pub new_uri: String,
}

/// Emitted when the owner changes an asset's access price.
#[derive(Clone, Copy, PartialEq, Eq, Structural, Debug)]
pub struct AccessPriceUpdated {
    pub token_id: u128,
    pub new_price: u128,
}

/// Emitted when an asset is burned.
#[derive(Clone, Copy, PartialEq, Eq, Structural, Debug)]
pub struct NFTBurned {
    pub token_id: u128,
    pub owner: Principal,
}

/// The event a successful registry operation emits.
#[derive(PartialEq, Eq, Debug)]
pub enum NftEvent {
    Minted(NFTMinted),
    Transferred(NFTTransferred),
    Approved(NFTApproved),
    AccessGranted(AccessGranted),
    AccessRevoked(AccessRevoked),
    DataURIUpdated(DataURIUpdated),
    AccessPriceUpdated(AccessPriceUpdated),
    Burned(NFTBurned),
}

/// What one asset slot contributes to a principal's holdings.
pub open spec fn slot_owned_by(slot: Option<DataNFT>, p: Principal) -> int {
    match slot {
        Some(n) => if n.owner == p {
            1
        } else {
            0
        },
        None => 0,
    }
}

/// The number of assets in the store owned by `p`: the cardinality of
/// `{ t : asset(t).owner == p }`.
pub open spec fn owned_count(assets: Seq<Option<DataNFT>>, p: Principal) -> int
    decreases assets.len(),
{
    if assets.len() == 0 {
        0
    } else {
        owned_count(assets.drop_last(), p) + slot_owned_by(assets.last(), p)
    }
}

/// A principal owns between none and all of the slots.
pub proof fn lemma_owned_count_bounds(assets: Seq<Option<DataNFT>>, p: Principal)
    ensures
        0 <= owned_count(assets, p) <= assets.len(),
    decreases assets.len(),
{
    if assets.len() > 0 {
        lemma_owned_count_bounds(assets.drop_last(), p);
    }
}

/// Appending a slot adds exactly its contribution.
pub proof fn lemma_owned_count_push(assets: Seq<Option<DataNFT>>, x: Option<DataNFT>, p: Principal)
    ensures
        owned_count(assets.push(x), p) == owned_count(assets, p) + slot_owned_by(x, p),
{
    assert(assets.push(x).drop_last() =~= assets);
    assert(assets.push(x).last() == x);
}

/// Replacing the slot at `i` exchanges its contribution for the new one.
pub proof fn lemma_owned_count_update(
    assets: Seq<Option<DataNFT>>,
    i: int,
    x: Option<DataNFT>,
    p: Principal,
)
    requires
        0 <= i < assets.len(),
    ensures
        owned_count(assets.update(i, x), p) == owned_count(assets, p) - slot_owned_by(
            assets[i],
            p,
        ) + slot_owned_by(x, p),
    decreases assets.len(),
{
    let u = assets.update(i, x);
    if i == assets.len() - 1 {
        assert(u.drop_last() =~= assets.drop_last());
        assert(u.last() == x);
        assert(assets.last() == assets[i]);
    } else {
        lemma_owned_count_update(assets.drop_last(), i, x, p);
        assert(u.drop_last() =~= assets.drop_last().update(i, x));
        assert(u.last() == assets.last());
        assert(assets.drop_last()[i] == assets[i]);
    }
}

/// A slot owned by `p` makes the count positive.
pub proof fn lemma_owned_count_member(assets: Seq<Option<DataNFT>>, i: int, p: Principal)
    requires
        0 <= i < assets.len(),
        slot_owned_by(assets[i], p) == 1,
    ensures
        owned_count(assets, p) >= 1,
    decreases assets.len(),
{
    if i == assets.len() - 1 {
        lemma_owned_count_bounds(assets.drop_last(), p);
        assert(assets.last() == assets[i]);
    } else {
        assert(assets.drop_last()[i] == assets[i]);
        lemma_owned_count_member(assets.drop_last(), i, p);
    }
}

/// The per-owner tally a counts list records for `p`; absent means none.
pub open spec fn count_of(counts: Seq<(Principal, u128)>, p: Principal) -> u128 {
    if map_of(counts).contains_key(p) {
        map_of(counts)[p]
    } else {
        0
    }
}

/// The approval slots after the owner approves `approved` for `token_id`;
/// unchanged when the token does not exist or the caller does not own it.
pub open spec fn approvals_after(
    assets: Seq<Option<DataNFT>>,
    approvals: Seq<Option<Principal>>,
    caller: Principal,
    token_id: u128,
    approved: Principal,
) -> Seq<Option<Principal>> {
    if 1 <= token_id <= assets.len() && assets[token_id as int - 1] is Some && assets[token_id
        as int - 1].unwrap().owner == caller {
        approvals.update(token_id as int - 1, Some(approved))
    } else {
        approvals
    }
}

/// Approving the same principal twice equals approving it once.
pub proof fn lemma_approve_idempotent(
    assets: Seq<Option<DataNFT>>,
    approvals: Seq<Option<Principal>>,
    caller: Principal,
    token_id: u128,
    approved: Principal,
)
    requires
        approvals.len() == assets.len(),
    ensures
        approvals_after(
            assets,
            approvals_after(assets, approvals, caller, token_id, approved),
            caller,
            token_id,
            approved,
        ) == approvals_after(assets, approvals, caller, token_id, approved),
{
    let once = approvals_after(assets, approvals, caller, token_id, approved);
    let twice = approvals_after(assets, once, caller, token_id, approved);
    assert(twice =~= once);
}

/// Looks up the position of a count entry for `p`.
fn count_find(counts: &Vec<(Principal, u128)>, p: &Principal) -> (r: Option<usize>)
    ensures
        match r {
            Some(i) => i < counts@.len() && counts@[i as int].0 == *p,
            None => forall|i: int| 0 <= i < counts@.len() ==> (#[trigger] counts@[i]).0 != *p,
        },
{
    let mut i: usize = 0;
    while i < counts.len()
        invariant
            i <= counts@.len(),
            forall|k: int| 0 <= k < i ==> (#[trigger] counts@[k]).0 != *p,
        decreases counts@.len() - i,
    {
        if counts[i].0 == *p {
            return Some(i);
        }
        i = i + 1;
    }
    None
}

/// Raises the tally for `p` by one.
fn count_incr(counts: &mut Vec<(Principal, u128)>, p: Principal)
    requires
        distinct_keys(old(counts)@),
        count_of(old(counts)@, p) < u128::MAX,
    ensures
        distinct_keys(final(counts)@),
        forall|q: Principal|
            #[trigger] count_of(final(counts)@, q) as int == count_of(old(counts)@, q) + if q == p {
                1int
            } else {
                0int
            },
{
    match count_find(counts, &p) {
        Some(i) => {
            proof {
                lemma_map_of_index(counts@, i as int);
            }
            let c = counts[i].1;
            counts[i] = (p, c + 1);
            proof {
                lemma_map_of_update(old(counts)@, i as int, counts@[i as int].1);
                assert forall|q: Principal|
                    #[trigger] count_of(counts@, q) as int == count_of(old(counts)@, q) + if q
                        == p {
                        1int
                    } else {
                        0int
                    } by {}
            }
        },
        None => {
            proof {
                lemma_map_of_absent(counts@, p);
            }
            counts.push((p, 1));
            proof {
                lemma_map_of_push(old(counts)@, p, 1);
                assert forall|a: int, b: int|
                    0 <= a < b < counts@.len() implies (#[trigger] counts@[a]).0 != (
                #[trigger] counts@[b]).0 by {
                    assert(counts@[a] == old(counts)@[a]);
                    if b < counts@.len() - 1 {
                        assert(counts@[b] == old(counts)@[b]);
                    }
                }
            }
        },
    }
}

/// Lowers the tally for `p` by one.
fn count_decr(counts: &mut Vec<(Principal, u128)>, p: Principal)
    requires
        distinct_keys(old(counts)@),
        count_of(old(counts)@, p) >= 1,
    ensures
        distinct_keys(final(counts)@),
        forall|q: Principal|
            #[trigger] count_of(final(counts)@, q) as int == count_of(old(counts)@, q) - if q == p {
                1int
            } else {
                0int
            },
{
    match count_find(counts, &p) {
        Some(i) => {
            proof {
                lemma_map_of_index(counts@, i as int);
            }
            let c = counts[i].1;
            counts[i] = (p, c - 1);
            proof {
                lemma_map_of_update(old(counts)@, i as int, counts@[i as int].1);
            }
        },
        None => {
            proof {
                lemma_map_of_absent(counts@, p);
            }
        },
    }
}

/// A grant entry for the pair stands somewhere in the list.
pub open spec fn granted_in(grants: Seq<(u128, Principal)>, token_id: u128, p: Principal) -> bool {
    exists|i: int| 0 <= i < grants.len() && grants[i] == (token_id, p)
}

/// Looks up the position of a grant entry for the pair.
fn grant_find(grants: &Vec<(u128, Principal)>, token_id: u128, p: &Principal) -> (r: Option<usize>)
    ensures
        match r {
            Some(i) => i < grants@.len() && grants@[i as int] == (token_id, *p),
            None => forall|i: int|
                0 <= i < grants@.len() ==> (#[trigger] grants@[i]) != (token_id, *p),
        },
{
    let mut i: usize = 0;
    while i < grants.len()
        invariant
            i <= grants@.len(),
            forall|k: int| 0 <= k < i ==> (#[trigger] grants@[k]) != (token_id, *p),
        decreases grants@.len() - i,
    {
        if grants[i].0 == token_id && grants[i].1 == *p {
            return Some(i);
        }
        i = i + 1;
    }
    None
}

/// The data-asset registry: assets under dense token ids (a burned slot
/// stays empty), per-owner counts, per-token approvals, and access grants.
pub struct DataNftRegistry {
    nfts: Vec<Option<DataNFT>>,
    owner_counts: Vec<(Principal, u128)>,
    approvals: Vec<Option<Principal>>,
    grants: Vec<(u128, Principal)>,
    admin: Principal,
    events: Vec<NftEvent>,
}

impl View for DataNftRegistry {
    type V = Seq<Option<DataNFT>>;

    closed spec fn view(&self) -> Seq<Option<DataNFT>> {
        self.nfts@
    }
}

impl DataNftRegistry {
    /// The principal that constructed the registry.
    pub closed spec fn spec_admin(&self) -> Principal {
        self.admin
    }

    /// Every event emitted so far, in emission order.
    pub closed spec fn spec_events(&self) -> Seq<NftEvent> {
        self.events@
    }

    /// The approval slots, one per token, in token order.
    pub closed spec fn spec_approvals(&self) -> Seq<Option<Principal>> {
        self.approvals@
    }

    /// The recorded holding count for `p`.
    pub closed spec fn spec_balance(&self, p: Principal) -> u128 {
        count_of(self.owner_counts@, p)
    }

    /// Whether access to `token_id` has been granted to `p`.
    pub closed spec fn spec_granted(&self, token_id: u128, p: Principal) -> bool {
        granted_in(self.grants@, token_id, p)
    }

    /// An asset currently exists under `token_id`.
    pub open spec fn token_exists(&self, token_id: u128) -> bool {
        1 <= token_id <= self@.len() && self@[token_id as int - 1] is Some
    }

    /// The asset stored under `token_id`.
    pub open spec fn nft(&self, token_id: u128) -> DataNFT
        recommends
            self.token_exists(token_id),
    {
        self@[token_id as int - 1].unwrap()
    }

    /// Well-formedness: dense token ids, one approval slot per token, one
    /// count entry per owner agreeing with the store, and no duplicate
    /// grant entries.
    pub closed spec fn wf(&self) -> bool {
        &&& forall|i: int|
            0 <= i < self.nfts@.len() ==> ((#[trigger] self.nfts@[i]) is Some ==> self.nfts@[
            i].unwrap().token_id == i + 1)
        &&& self.approvals@.len() == self.nfts@.len()
        &&& distinct_keys(self.owner_counts@)
        &&& forall|p: Principal|
            #[trigger] count_of(self.owner_counts@, p) as int == owned_count(self.nfts@, p)
        &&& forall|i: int, j: int|
            0 <= i < j < self.grants@.len() ==> (#[trigger] self.grants@[i]) != (
            #[trigger] self.grants@[j])
    }

    /// Identifier density: an asset still standing at position `i` carries
    /// token id `i + 1`, so minting hands out exactly `1, 2, 3, ...` in
    /// order.
    pub proof fn lemma_token_ids_dense(&self)
        requires
            self.wf(),
        ensures
            forall|i: int|
                0 <= i < self@.len() ==> ((#[trigger] self@[i]) is Some ==> self@[
                i].unwrap().token_id == i + 1),
    {
    }

    /// Ownership-count consistency: the recorded balance of `p` equals the
    /// number of assets in the store that `p` owns.
    pub proof fn lemma_owner_count_consistency(&self, p: Principal)
        requires
            self.wf(),
        ensures
            self.spec_balance(p) as int == owned_count(self@, p),
    {
    }

    /// Creates an empty registry administered by `caller`.
    pub fn new(caller: Principal) -> (s: Self)
        ensures
            s.wf(),
            s@ == Seq::<Option<DataNFT>>::empty(),
            s.spec_approvals() == Seq::<Option<Principal>>::empty(),
            s.spec_admin() == caller,
            s.spec_events() == Seq::<NftEvent>::empty(),
            forall|p: Principal| #[trigger] s.spec_balance(p) == 0,
            forall|t: u128, p: Principal| !(#[trigger] s.spec_granted(t, p)),
    {
        let s = DataNftRegistry {
            nfts: Vec::new(),
            owner_counts: Vec::new(),
            approvals: Vec::new(),
            grants: Vec::new(),
            admin: caller,
            events: Vec::new(),
        };
        s
    }

    /// Mints a new asset owned by the caller; always succeeds and allocates
    /// the next token id.
    pub fn mint(
        &mut self,
        caller: Principal,
        now: u64,
        data_uri: String,
        privacy_level: u8,
        access_price: u128,
        is_transferable: bool,
    ) -> (r: u128)
        requires
            old(self).wf(),
        ensures
            final(self).wf(),
            r == old(self)@.len() + 1,
            final(self)@ == old(self)@.push(
                Some(
                    (DataNFT {
                        token_id: r,
                        owner: caller,
                        data_uri: data_uri,
                        privacy_level: privacy_level,
                        minted_at: now,
                        access_price: access_price,
                        is_transferable: is_transferable,
                    }),
                ),
            ),
            final(self).spec_approvals() == old(self).spec_approvals().push(None::<Principal>),
            forall|p: Principal|
                #[trigger] final(self).spec_balance(p) as int == old(self).spec_balance(p) + if p
                    == caller {
                    1int
                } else {
                    0int
                },
            forall|t: u128, p: Principal|
                #[trigger] final(self).spec_granted(t, p) == old(self).spec_granted(t, p),
            final(self).spec_events() == old(self).spec_events().push(
                NftEvent::Minted(
                    (NFTMinted {
                        token_id: r,
                        owner: caller,
                        data_uri: data_uri,
                        privacy_level: privacy_level,
                    }),
                ),
            ),
            final(self).spec_admin() == old(self).spec_admin(),
    {
        let token_id: u128 = (self.nfts.len() as u128) + 1;
        let nft = DataNFT {
            token_id,
            owner: caller,
            data_uri: data_uri.clone(),
            privacy_level,
            minted_at: now,
            access_price,
            is_transferable,
        };
        proof {
            lemma_owned_count_bounds(self.nfts@, caller);
        }
        self.nfts.push(Some(nft));
        self.approvals.push(None);
        count_incr(&mut self.owner_counts, caller);
        self.events.push(
            NftEvent::Minted(NFTMinted { token_id, owner: caller, data_uri, privacy_level }),
        );
        proof {
            assert forall|p: Principal|
                #[trigger] count_of(self.owner_counts@, p) as int == owned_count(
                    self.nfts@,
                    p,
                ) by {
                lemma_owned_count_push(old(self).nfts@, self.nfts@.last(), p);
            }
        }
        token_id
    }

    /// Transfers an asset to `to`.  Succeeds exactly when the asset exists,
    /// the caller owns it, and it is transferable; the transfer clears any
    /// approval for the token.
    pub fn transfer(&mut self, caller: Principal, token_id: u128, to: Principal) -> (r: bool)
        requires
            old(self).wf(),
        ensures
            final(self).wf(),
            r == (old(self).token_exists(token_id) && old(self).nft(token_id).owner == caller
                && old(self).nft(token_id).is_transferable),
            !r ==> *final(self) == *old(self),
            r ==> final(self)@ == old(self)@.update(
                token_id as int - 1,
                Some((DataNFT { owner: to, ..old(self).nft(token_id) })),
            ),
            r ==> final(self).spec_approvals() == old(self).spec_approvals().update(
                token_id as int - 1,
                None::<Principal>,
            ),
            r ==> forall|p: Principal|
                #[trigger] final(self).spec_balance(p) as int == old(self).spec_balance(p) - (
                if p == caller {
                    1int
                } else {
                    0int
                }) + (if p == to {
                    1int
                } else {
                    0int
                }),
            forall|t: u128, p: Principal|
                #[trigger] final(self).spec_granted(t, p) == old(self).spec_granted(t, p),
            r ==> final(self).spec_events() == old(self).spec_events().push(
                NftEvent::Transferred(
                    (NFTTransferred { token_id: token_id, from: caller, to: to }),
                ),
            ),
            final(self).spec_admin() == old(self).spec_admin(),
    {
        if !(token_id >= 1 && token_id <= self.nfts.len() as u128) {
            return false;
        }
        let idx: usize = (token_id - 1) as usize;
        let (owner, transferable) = match &self.nfts[idx] {
            Some(n) => (n.owner, n.is_transferable),
            None => {
                return false;
            },
        };
        if !(owner == caller) || !transferable {
            return false;
        }
        proof {
            lemma_owned_count_member(self.nfts@, idx as int, caller);
            lemma_owned_count_bounds(self.nfts@, to);
        }
        let updated = match &self.nfts[idx] {
            Some(n) => {
                let mut m = n.clone();
                m.owner = to;
                Some(m)
            },
            None => None,
        };
        self.nfts[idx] = updated;
        count_decr(&mut self.owner_counts, caller);
        count_incr(&mut self.owner_counts, to);
        self.approvals[idx] = None;
        self.events.push(NftEvent::Transferred(NFTTransferred { token_id, from: caller, to }));
        proof {
            assert forall|p: Principal|
                #[trigger] count_of(self.owner_counts@, p) as int == owned_count(
                    self.nfts@,
                    p,
                ) by {
                lemma_owned_count_update(old(self).nfts@, idx as int, self.nfts@[idx as int], p);
            }
        }
        true
    }

    /// Approves a principal for an asset.  Succeeds exactly when the asset
    /// exists and the caller owns it; approving the same principal twice
    /// equals approving it once.
    pub fn approve(&mut self, caller: Principal, token_id: u128, approved: Principal) -> (r: bool)
        requires
            old(self).wf(),
        ensures
            final(self).wf(),
            r == (old(self).token_exists(token_id) && old(self).nft(token_id).owner == caller),
            !r ==> *final(self) == *old(self),
            final(self).spec_approvals() == approvals_after(
                old(self)@,
                old(self).spec_approvals(),
                caller,
                token_id,
                approved,
            ),
            final(self)@ == old(self)@,
            r ==> final(self).spec_events() == old(self).spec_events().push(
                NftEvent::Approved(
                    (NFTApproved { token_id: token_id, owner: caller, approved: approved }),
                ),
            ),
            forall|p: Principal|
                #[trigger] final(self).spec_balance(p) == old(self).spec_balance(p),
            forall|t: u128, p: Principal|
                #[trigger] final(self).spec_granted(t, p) == old(self).spec_granted(t, p),
            final(self).spec_admin() == old(self).spec_admin(),
    {
        if !(token_id >= 1 && token_id <= self.nfts.len() as u128) {
            return false;
        }
        let idx: usize = (token_id - 1) as usize;
        let owner = match &self.nfts[idx] {
            Some(n) => n.owner,
            None => {
                return false;
            },
        };
        if !(owner == caller) {
            return false;
        }
        self.approvals[idx] = Some(approved);
        self.events.push(NftEvent::Approved(NFTApproved { token_id, owner: caller, approved }));
        true
    }

    /// Grants `grantee` access to an asset against the attached payment.
    /// Succeeds exactly when the asset exists, the caller owns it, and the
    /// payment meets the access price.  The payment stays in the
    /// component's custody.
    pub fn grant_access(
        &mut self,
        caller: Principal,
        token_id: u128,
        grantee: Principal,
        attached: u128,
    ) -> (r: bool)
        requires
            old(self).wf(),
        ensures
            final(self).wf(),
            r == (old(self).token_exists(token_id) && old(self).nft(token_id).owner == caller
                && attached >= old(self).nft(token_id).access_price),
            !r ==> *final(self) == *old(self),
            forall|t: u128, p: Principal|
                #[trigger] final(self).spec_granted(t, p) == (old(self).spec_granted(t, p) || (r
                    && t == token_id && p == grantee)),
            final(self)@ == old(self)@,
            final(self).spec_approvals() == old(self).spec_approvals(),
            forall|p: Principal|
                #[trigger] final(self).spec_balance(p) == old(self).spec_balance(p),
            r ==> final(self).spec_events() == old(self).spec_events().push(
                NftEvent::AccessGranted(
                    (AccessGranted { token_id: token_id, grantee: grantee, payment: attached }),
                ),
            ),
            final(self).spec_admin() == old(self).spec_admin(),
    {
        if !(token_id >= 1 && token_id <= self.nfts.len() as u128) {
            return false;
        }
        let idx: usize = (token_id - 1) as usize;
        let (owner, price) = match &self.nfts[idx] {
            Some(n) => (n.owner, n.access_price),
            None => {
                return false;
            },
        };
        if !(owner == caller) || attached < price {
            return false;
        }
        match grant_find(&self.grants, token_id, &grantee) {
            Some(_) => {},
            None => {
                self.grants.push((token_id, grantee));
                proof {
                    assert forall|a: int, b: int|
                        0 <= a < b < self.grants@.len() implies (#[trigger] self.grants@[a]) != (
                    #[trigger] self.grants@[b]) by {
                        assert(self.grants@[a] == old(self).grants@[a]);
                        if b < self.grants@.len() - 1 {
                            assert(self.grants@[b] == old(self).grants@[b]);
                        }
                    }
                }
            },
        }
        self.events.push(
            NftEvent::AccessGranted(AccessGranted { token_id, grantee, payment: attached }),
        );
        proof {
            assert forall|t: u128, p: Principal|
                #[trigger] self.spec_granted(t, p) == (old(self).spec_granted(t, p) || (t
                    == token_id && p == grantee)) by {
                if old(self).spec_granted(t, p) {
                    let w = choose|i: int|
                        0 <= i < old(self).grants@.len() && old(self).grants@[i] == (t, p);
                    assert(self.grants@[w] == (t, p));
                }
                if t == token_id && p == grantee {
                    if self.grants@.len() == old(self).grants@.len() {
                    } else {
                        assert(self.grants@[self.grants@.len() - 1] == (t, p));
                    }
                }
                if self.spec_granted(t, p) {
                    let w = choose|i: int|
                        0 <= i < self.grants@.len() && self.grants@[i] == (t, p);
                    if w < old(self).grants@.len() {
                        assert(old(self).grants@[w] == (t, p));
                    }
                }
            }
        }
        true
    }

    /// Revokes `grantee`'s access to an asset.  Succeeds exactly when the
    /// asset exists and the caller owns it or is the admin.
    pub fn revoke_access(&mut self, caller: Principal, token_id: u128, grantee: Principal) -> (r:
        bool)
        requires
            old(self).wf(),
        ensures
            final(self).wf(),
            r == (old(self).token_exists(token_id) && (old(self).nft(token_id).owner == caller
                || caller == old(self).spec_admin())),
            !r ==> *final(self) == *old(self),
            forall|t: u128, p: Principal|
                #[trigger] final(self).spec_granted(t, p) == (old(self).spec_granted(t, p) && !(r
                    && t == token_id && p == grantee)),
            final(self)@ == old(self)@,
            final(self).spec_approvals() == old(self).spec_approvals(),
            forall|p: Principal|
                #[trigger] final(self).spec_balance(p) == old(self).spec_balance(p),
            r ==> final(self).spec_events() == old(self).spec_events().push(
                NftEvent::AccessRevoked((AccessRevoked { token_id: token_id, grantee: grantee })),
            ),
            final(self).spec_admin() == old(self).spec_admin(),
    {
        if !(token_id >= 1 && token_id <= self.nfts.len() as u128) {
            return false;
        }
        let idx: usize = (token_id - 1) as usize;
        let owner = match &self.nfts[idx] {
            Some(n) => n.owner,
            None => {
                return false;
            },
        };
        if !(owner == caller) && !(caller == self.admin) {
            return false;
        }
        match grant_find(&self.grants, token_id, &grantee) {
            Some(i) => {
                self.grants.remove(i);
                proof {
                    let pre = old(self).grants@;
                    let post = self.grants@;
                    pre.remove_ensures(i as int);
                    assert forall|a: int, b: int|
                        0 <= a < b < post.len() implies (#[trigger] post[a]) != (
                    #[trigger] post[b]) by {
                        let a0: int = if a < i as int {
                            a
                        } else {
                            a + 1
                        };
                        let b0: int = if b < i as int {
                            b
                        } else {
                            b + 1
                        };
                        assert(post[a] == pre[a0]);
                        assert(post[b] == pre[b0]);
                    }
                    assert forall|t: u128, p: Principal|
                        #[trigger] granted_in(post, t, p) == (granted_in(pre, t, p) && !(t
                            == token_id && p == grantee)) by {
                        if granted_in(post, t, p) {
                            let w = choose|j: int| 0 <= j < post.len() && post[j] == (t, p);
                            if w < i as int {
                                assert(pre[w] == (t, p));
                            } else {
                                assert(pre[w + 1] == (t, p));
                                assert(w + 1 != i as int);
                            }
                        }
                        if granted_in(pre, t, p) && !(t == token_id && p == grantee) {
                            let w = choose|j: int| 0 <= j < pre.len() && pre[j] == (t, p);
                            assert(w != i as int);
                            if w < i as int {
                                assert(post[w] == (t, p));
                            } else {
                                assert(post[w - 1] == (t, p));
                            }
                        }
                    }
                }
            },
            None => {
                proof {
                    assert forall|t: u128, p: Principal|
                        #[trigger] granted_in(self.grants@, t, p) == (granted_in(
                            old(self).grants@,
                            t,
                            p,
                        ) && !(t == token_id && p == grantee)) by {
                    }
                }
            },
        }
        self.events.push(NftEvent::AccessRevoked(AccessRevoked { token_id, grantee }));
        true
    }

    /// Changes an asset's data URI.  Succeeds exactly when the asset exists
    /// and the caller owns it.
    pub fn update_data_uri(&mut self, caller: Principal, token_id: u128, new_uri: String) -> (r:
        bool)
        requires
            old(self).wf(),
        ensures
            final(self).wf(),
            r == (old(self).token_exists(token_id) && old(self).nft(token_id).owner == caller),
            !r ==> *final(self) == *old(self),
            r ==> final(self)@ == old(self)@.update(
                token_id as int - 1,
                Some((DataNFT { data_uri: new_uri, ..old(self).nft(token_id) })),
            ),
            r ==> final(self).spec_events() == old(self).spec_events().push(
                NftEvent::DataURIUpdated((DataURIUpdated { token_id: token_id, new_uri: new_uri })),
            ),
            final(self).spec_approvals() == old(self).spec_approvals(),
            forall|p: Principal|
                #[trigger] final(self).spec_balance(p) == old(self).spec_balance(p),
            forall|t: u128, p: Principal|
                #[trigger] final(self).spec_granted(t, p) == old(self).spec_granted(t, p),
            final(self).spec_admin() == old(self).spec_admin(),
    {
        if !(token_id >= 1 && token_id <= self.nfts.len() as u128) {
            return false;
        }
        let idx: usize = (token_id - 1) as usize;
        let updated = match &self.nfts[idx] {
            Some(n) => {
                if !(n.owner == caller) {
                    return false;
                }
                let mut m = n.clone();
                m.data_uri = new_uri.clone();
                Some(m)
            },
            None => {
                return false;
            },
        };
        self.nfts[idx] = updated;
        self.events.push(NftEvent::DataURIUpdated(DataURIUpdated { token_id, new_uri }));
        proof {
            assert forall|p: Principal|
                #[trigger] count_of(self.owner_counts@, p) as int == owned_count(
                    self.nfts@,
                    p,
                ) by {
                lemma_owned_count_update(old(self).nfts@, idx as int, self.nfts@[idx as int], p);
            }
        }
        true
    }

    /// Changes an asset's access price.  Succeeds exactly when the asset
    /// exists and the caller owns it.
    pub fn update_access_price(&mut self, caller: Principal, token_id: u128, new_price: u128) -> (r:
        bool)
        requires
            old(self).wf(),
        ensures
            final(self).wf(),
            r == (old(self).token_exists(token_id) && old(self).nft(token_id).owner == caller),
            !r ==> *final(self) == *old(self),
            r ==> final(self)@ == old(self)@.update(
                token_id as int - 1,
                Some((DataNFT { access_price: new_price, ..old(self).nft(token_id) })),
            ),
            r ==> final(self).spec_events() == old(self).spec_events().push(
                NftEvent::AccessPriceUpdated(
                    (AccessPriceUpdated { token_id: token_id, new_price: new_price }),
                ),
            ),
            final(self).spec_approvals() == old(self).spec_approvals(),
            forall|p: Principal|
                #[trigger] final(self).spec_balance(p) == old(self).spec_balance(p),
            forall|t: u128, p: Principal|
                #[trigger] final(self).spec_granted(t, p) == old(self).spec_granted(t, p),
            final(self).spec_admin() == old(self).spec_admin(),
    {
        if !(token_id >= 1 && token_id <= self.nfts.len() as u128) {
            return false;
        }
        let idx: usize = (token_id - 1) as usize;
        let updated = match &self.nfts[idx] {
            Some(n) => {
                if !(n.owner == caller) {
                    return false;
                }
                let mut m = n.clone();
                m.access_price = new_price;
                Some(m)
            },
            None => {
                return false;
            },
        };
        self.nfts[idx] = updated;
        self.events.push(
            NftEvent::AccessPriceUpdated(AccessPriceUpdated { token_id, new_price }),
        );
        proof {
            assert forall|p: Principal|
                #[trigger] count_of(self.owner_counts@, p) as int == owned_count(
                    self.nfts@,
                    p,
                ) by {
                lemma_owned_count_update(old(self).nfts@, idx as int, self.nfts@[idx as int], p);
            }
        }
        true
    }

    /// Burns an asset.  Succeeds exactly when the asset exists and the
    /// caller owns it or is the admin; the slot is emptied and the prior
    /// owner's count lowered.
    pub fn burn(&mut self, caller: Principal, token_id: u128) -> (r: bool)
        requires
            old(self).wf(),
        ensures
            final(self).wf(),
            r == (old(self).token_exists(token_id) && (old(self).nft(token_id).owner == caller
                || caller == old(self).spec_admin())),
            !r ==> *final(self) == *old(self),
            r ==> final(self)@ == old(self)@.update(token_id as int - 1, None::<DataNFT>),
            r ==> forall|p: Principal|
                #[trigger] final(self).spec_balance(p) as int == old(self).spec_balance(p) - if p
                    == old(self).nft(token_id).owner {
                    1int
                } else {
                    0int
                },
            r ==> final(self).spec_events() == old(self).spec_events().push(
                NftEvent::Burned(
                    (NFTBurned { token_id: token_id, owner: old(self).nft(token_id).owner }),
                ),
            ),
            final(self).spec_approvals() == old(self).spec_approvals(),
            forall|t: u128, p: Principal|
                #[trigger] final(self).spec_granted(t, p) == old(self).spec_granted(t, p),
            final(self).spec_admin() == old(self).spec_admin(),
    {
        if !(token_id >= 1 && token_id <= self.nfts.len() as u128) {
            return false;
        }
        let idx: usize = (token_id - 1) as usize;
        let owner = match &self.nfts[idx] {
            Some(n) => n.owner,
            None => {
                return false;
            },
        };
        if !(owner == caller) && !(caller == self.admin) {
            return false;
        }
        proof {
            lemma_owned_count_member(self.nfts@, idx as int, owner);
        }
        self.nfts[idx] = None;
        count_decr(&mut self.owner_counts, owner);
        self.events.push(NftEvent::Burned(NFTBurned { token_id, owner }));
        proof {
            assert forall|p: Principal|
                #[trigger] count_of(self.owner_counts@, p) as int == owned_count(
                    self.nfts@,
                    p,
                ) by {
                lemma_owned_count_update(old(self).nfts@, idx as int, None, p);
            }
        }
        true
    }

    /// Returns the asset under `token_id`, or `None` when none exists.
    pub fn get_nft(&self, token_id: u128) -> (r: Option<DataNFT>)
        ensures
            r == if self.token_exists(token_id) {
                Some(self.nft(token_id))
            } else {
                None::<DataNFT>
            },
    {
        if token_id >= 1 && token_id <= self.nfts.len() as u128 {
            let idx: usize = (token_id - 1) as usize;
            match &self.nfts[idx] {
                Some(n) => Some(n.clone()),
                None => None,
            }
        } else {
            None
        }
    }

    /// The number of assets currently owned by `owner`.
    pub fn balance_of(&self, owner: Principal) -> (r: u128)
        requires
            self.wf(),
        ensures
            r == self.spec_balance(owner),
    {
        match count_find(&self.owner_counts, &owner) {
            Some(i) => {
                proof {
                    lemma_map_of_index(self.owner_counts@, i as int);
                }
                self.owner_counts[i].1
            },
            None => {
                proof {
                    lemma_map_of_absent(self.owner_counts@, owner);
                }
                0
            },
        }
    }

    /// Returns the approved principal for a token, if any.
    pub fn get_approved(&self, token_id: u128) -> (r: Option<Principal>)
        ensures
            r == if 1 <= token_id <= self.spec_approvals().len() {
                self.spec_approvals()[token_id as int - 1]
            } else {
                None::<Principal>
            },
    {
        if token_id >= 1 && token_id <= self.approvals.len() as u128 {
            let idx: usize = (token_id - 1) as usize;
            self.approvals[idx]
        } else {
            None
        }
    }

    /// Whether `account` may read the asset: owners always may, and
    /// otherwise a recorded grant decides.
    pub fn has_access(&self, token_id: u128, account: Principal) -> (r: bool)
        ensures
            r == ((self.token_exists(token_id) && self.nft(token_id).owner == account)
                || self.spec_granted(token_id, account)),
    {
        if token_id >= 1 && token_id <= self.nfts.len() as u128 {
            let idx: usize = (token_id - 1) as usize;
            match &self.nfts[idx] {
                Some(n) => {
                    if n.owner == account {
                        return true;
                    }
                },
                None => {},
            }
        }
        match grant_find(&self.grants, token_id, &account) {
            Some(i) => true,
            None => false,
        }
    }

    /// The number of assets ever minted, equal to the last allocated id.
    pub fn total_supply(&self) -> (r: u128)
        ensures
            r == self@.len(),
    {
        self.nfts.len() as u128
    }

    /// The principal that constructed the registry.
    pub fn get_admin(&self) -> (r: Principal)
        ensures
            r == self.spec_admin(),
    {
        self.admin
    }

    /// Every event emitted so far, in emission order.
    pub fn get_events(&self) -> (r: &Vec<NftEvent>)
        ensures
            r@ == self.spec_events(),
    {
        &self.events
    }
}

} // verus!
