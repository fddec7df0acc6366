use vstd::prelude::*;
use crate::principal::Principal;
use crate::assoc::{
    map_of, distinct_keys, lemma_map_of_index, lemma_map_of_absent, lemma_map_of_push,
    lemma_map_of_update, lemma_map_of_lookup,
};

verus! {

/// Custody record for one job's payment.  After a release or a refund the
/// record is terminal and holds nothing.
#[derive(Clone, Copy, PartialEq, Eq, Structural, Debug)]
pub struct Escrow {
    pub owner: Principal,
    pub provider: Option<Principal>,
    pub amount: u128,
    pub released: bool,
    pub refunded: bool,
}

impl Escrow {
    /// The record has been settled, one way or the other.
    pub open spec fn terminal(self) -> bool {
        self.released || self.refunded
    }

    /// A record never shows both settlements, a settled record holds
    /// nothing, and a live record holds a positive amount.
    pub open spec fn valid(self) -> bool {
        &&& !(self.released && self.refunded)
        &&& (self.terminal() ==> self.amount == 0)
        &&& (!self.terminal() ==> self.amount > 0)
    }
}

/// Emitted when a deposit opens custody for a job.
#[derive(Clone, Copy, PartialEq, Eq, Structural, Debug)]
pub struct Deposited {
    pub job_id: u128,
    pub owner: Principal,
    pub provider: Principal,
    pub amount: u128,
}

/// Emitted when custody is released to the provider.
#[derive(Clone, Copy, PartialEq, Eq, Structural, Debug)]
pub struct Released {
    pub job_id: u128,
    pub provider: Principal,
    pub amount: u128,
}

/// Emitted when custody is refunded to the owner.
#[derive(Clone, Copy, PartialEq, Eq, Structural, Debug)]
pub struct Refunded {
    pub job_id: u128,
    pub owner: Principal,
    pub amount: u128,
}

/// Emitted when the owner changes the recorded provider.
#[derive(Clone, Copy, PartialEq, Eq, Structural, Debug)]
pub struct ProviderSet {
    pub job_id: u128,
    pub provider: Principal,
}

/// The event a successful escrow operation emits.
#[derive(Clone, Copy, PartialEq, Eq, Structural, Debug)]
pub enum EscrowEvent {
    Deposited(Deposited),
    Released(Released),
    Refunded(Refunded),
    ProviderSet(ProviderSet),
}

/// Sum of all deposits recorded for `job_id` in the event stream.
pub open spec fn deposited_total(events: Seq<EscrowEvent>, job_id: u128) -> int
    decreases events.len(),
{
    if events.len() == 0 {
        0
    } else {
        deposited_total(events.drop_last(), job_id) + match events.last() {
            EscrowEvent::Deposited(e) => if e.job_id == job_id {
                e.amount as int
            } else {
                0
            },
            _ => 0,
        }
    }
}

/// Sum of all releases recorded for `job_id` in the event stream.
pub open spec fn released_total(events: Seq<EscrowEvent>, job_id: u128) -> int
    decreases events.len(),
{
    if events.len() == 0 {
        0
    } else {
        released_total(events.drop_last(), job_id) + match events.last() {
            EscrowEvent::Released(e) => if e.job_id == job_id {
                e.amount as int
            } else {
                0
            },
            _ => 0,
        }
    }
}

/// Sum of all refunds recorded for `job_id` in the event stream.
pub open spec fn refunded_total(events: Seq<EscrowEvent>, job_id: u128) -> int
    decreases events.len(),
{
    if events.len() == 0 {
        0
    } else {
        refunded_total(events.drop_last(), job_id) + match events.last() {
            EscrowEvent::Refunded(e) => if e.job_id == job_id {
                e.amount as int
            } else {
                0
            },
            _ => 0,
        }
    }
}

/// How one appended event moves each of the three running totals.
pub proof fn lemma_totals_push(events: Seq<EscrowEvent>, e: EscrowEvent, job_id: u128)
    ensures
        deposited_total(events.push(e), job_id) == deposited_total(events, job_id) + match e {
            EscrowEvent::Deposited(d) => if d.job_id == job_id {
                d.amount as int
            } else {
                0
            },
            _ => 0,
        },
        released_total(events.push(e), job_id) == released_total(events, job_id) + match e {
            EscrowEvent::Released(d) => if d.job_id == job_id {
                d.amount as int
            } else {
                0
            },
            _ => 0,
        },
        refunded_total(events.push(e), job_id) == refunded_total(events, job_id) + match e {
            EscrowEvent::Refunded(d) => if d.job_id == job_id {
                d.amount as int
            } else {
                0
            },
            _ => 0,
        },
{
    assert(events.push(e).drop_last() =~= events);
    assert(events.push(e).last() == e);
}

/// Per-job payment custody: escrow records keyed by job id, and the event
/// stream that every successful operation extends.
pub struct PaymentEscrow {
    escrows: Vec<(u128, Escrow)>,
    admin: Principal,
    events: Vec<EscrowEvent>,
}

impl View for PaymentEscrow {
    type V = Map<u128, Escrow>;

    closed spec fn view(&self) -> Map<u128, Escrow> {
        map_of(self.escrows@)
    }
}

impl PaymentEscrow {
    /// The principal that constructed the component.
    pub closed spec fn spec_admin(&self) -> Principal {
        self.admin
    }

    /// Every event emitted so far, in emission order.
    pub closed spec fn spec_events(&self) -> Seq<EscrowEvent> {
        self.events@
    }

    /// The amount currently held in live custody for `job_id`; zero when no
    /// record exists or the record is terminal.
    pub open spec fn live_amount(&self, job_id: u128) -> int {
        if self@.contains_key(job_id) && !self@[job_id].terminal() {
            self@[job_id].amount as int
        } else {
            0
        }
    }

    /// Value conservation: for every job, what came in equals what went out
    /// plus what is still held.
    pub open spec fn conserved(&self) -> bool {
        forall|j: u128|
            deposited_total(self.spec_events(), j) == released_total(self.spec_events(), j)
                + refunded_total(self.spec_events(), j) + #[trigger] self.live_amount(j)
    }

    /// Well-formedness: one record per job id, every record valid, and the
    /// event stream conserves value.
    pub closed spec fn wf(&self) -> bool {
        &&& distinct_keys(self.escrows@)
        &&& forall|i: int|
            0 <= i < self.escrows@.len() ==> (#[trigger] self.escrows@[i]).1.valid()
        &&& self.conserved()
    }

    /// Escrow terminality: no record is both released and refunded, and a
    /// settled record holds nothing.
    pub proof fn lemma_escrow_terminality(&self)
        requires
            self.wf(),
        ensures
            forall|j: u128| #[trigger]
                self@.contains_key(j) ==> !(self@[j].released && self@[j].refunded) && ((
                self@[j].released || self@[j].refunded) ==> self@[j].amount == 0),
    {
        assert forall|j: u128| #[trigger] self@.contains_key(j) implies !(self@[j].released
            && self@[j].refunded) && ((self@[j].released || self@[j].refunded) ==> self@[j].amount
            == 0) by {
            let i = lemma_map_of_lookup(self.escrows@, j);
        }
    }

    /// Value conservation for one job: the deposits recorded in the event
    /// stream equal its releases plus its refunds plus the amount still held
    /// live.
    pub proof fn lemma_value_conservation(&self, job_id: u128)
        requires
            self.wf(),
        ensures
            deposited_total(self.spec_events(), job_id) == released_total(
                self.spec_events(),
                job_id,
            ) + refunded_total(self.spec_events(), job_id) + self.live_amount(job_id),
    {
    }

    /// Creates an empty escrow component administered by `caller`.
    pub fn new(caller: Principal) -> (s: Self)
        ensures
            s.wf(),
            s@ == Map::<u128, Escrow>::empty(),
            s.spec_admin() == caller,
            s.spec_events() == Seq::<EscrowEvent>::empty(),
    {
        let s = PaymentEscrow { escrows: Vec::new(), admin: caller, events: Vec::new() };
        proof {
            assert(s@ =~= Map::<u128, Escrow>::empty());
            assert forall|j: u128|
                deposited_total(s.spec_events(), j) == released_total(s.spec_events(), j)
                    + refunded_total(s.spec_events(), j) + #[trigger] s.live_amount(j) by {
                assert(s.live_amount(j) == 0);
            }
        }
        s
    }

    /// The position of the record for `job_id`, if one exists.
    fn find_index(&self, job_id: u128) -> (r: Option<usize>)
        ensures
            match r {
                Some(i) => i < self.escrows@.len() && self.escrows@[i as int].0 == job_id,
                None => forall|i: int|
                    0 <= i < self.escrows@.len() ==> (#[trigger] self.escrows@[i]).0 != job_id,
            },
    {
        let mut i: usize = 0;
        while i < self.escrows.len()
            invariant
                i <= self.escrows@.len(),
                forall|k: int| 0 <= k < i ==> (#[trigger] self.escrows@[k]).0 != job_id,
            decreases self.escrows@.len() - i,
        {
            if self.escrows[i].0 == job_id {
                return Some(i);
            }
            i = i + 1;
        }
        None
    }

    /// Deposits custody for a job.  Succeeds exactly when the payment is
    /// positive and no live record exists for the job; the new record
    /// replaces a settled one.
    pub fn deposit_for_job(
        &mut self,
        caller: Principal,
        job_id: u128,
        provider: Principal,
        attached: u128,
    ) -> (r: bool)
        requires
            old(self).wf(),
        ensures
            final(self).wf(),
            r == (attached > 0 && !(old(self)@.contains_key(job_id) && !old(self)@[job_id].terminal())),
            !r ==> *final(self) == *old(self),
            r ==> final(self)@ == old(self)@.insert(
                job_id,
                (Escrow {
                    owner: caller,
                    provider: Some(provider),
                    amount: attached,
                    released: false,
                    refunded: false,
                }),
            ),
            r ==> final(self).spec_events() == old(self).spec_events().push(
                EscrowEvent::Deposited(
                    (Deposited { job_id: job_id, owner: caller, provider: provider, amount: attached
                    }),
                ),
            ),
            final(self).spec_admin() == old(self).spec_admin(),
    {
        if attached == 0 {
            return false;
        }
        let rec = Escrow {
            owner: caller,
            provider: Some(provider),
            amount: attached,
            released: false,
            refunded: false,
        };
        let ev = EscrowEvent::Deposited(
            Deposited { job_id, owner: caller, provider, amount: attached },
        );
        match self.find_index(job_id) {
            Some(i) => {
                proof {
                    lemma_map_of_index(self.escrows@, i as int);
                }
                if !self.escrows[i].1.released && !self.escrows[i].1.refunded {
                    return false;
                }
                self.escrows[i] = (job_id, rec);
                self.events.push(ev);
                proof {
                    lemma_map_of_update(old(self).escrows@, i as int, rec);
                    self.lemma_reestablish_after(*old(self), job_id, ev, rec);
                }
                true
            },
            None => {
                proof {
                    lemma_map_of_absent(self.escrows@, job_id);
                }
                self.escrows.push((job_id, rec));
                self.events.push(ev);
                proof {
                    lemma_map_of_push(old(self).escrows@, job_id, rec);
                    assert forall|a: int, b: int|
                        0 <= a < b < self.escrows@.len() implies (#[trigger] self.escrows@[a]).0
                        != (#[trigger] self.escrows@[b]).0 by {
                        if b < self.escrows@.len() - 1 {
                            assert(self.escrows@[a] == old(self).escrows@[a]);
                            assert(self.escrows@[b] == old(self).escrows@[b]);
                        } else {
                            assert(self.escrows@[a] == old(self).escrows@[a]);
                        }
                    }
                    self.lemma_reestablish_after(*old(self), job_id, ev, rec);
                }
                true
            },
        }
    }

    /// Re-establishes record validity and conservation after an operation
    /// that replaced the record for `job_id` by `rec` and appended `ev`.
    proof fn lemma_reestablish_after(
        &self,
        pre: PaymentEscrow,
        job_id: u128,
        ev: EscrowEvent,
        rec: Escrow,
    )
        requires
            pre.wf(),
            rec.valid(),
            distinct_keys(self.escrows@),
            self@ == pre@.insert(job_id, rec),
            self.spec_events() == pre.spec_events().push(ev),
            // the appended event books exactly the change of live custody for `job_id`
            match ev {
                EscrowEvent::Deposited(d) => d.job_id == job_id && d.amount as int == rec.amount
                    as int - pre.live_amount(job_id) && !rec.terminal(),
                EscrowEvent::Released(d) => d.job_id == job_id && d.amount as int
                    == pre.live_amount(job_id) && rec.terminal(),
                EscrowEvent::Refunded(d) => d.job_id == job_id && d.amount as int
                    == pre.live_amount(job_id) && rec.terminal(),
                EscrowEvent::ProviderSet(d) => rec.amount == pre.live_amount(job_id)
                    && !rec.terminal(),
            },
        ensures
            forall|i: int| 0 <= i < self.escrows@.len() ==> (#[trigger] self.escrows@[i]).1.valid(),
            self.conserved(),
    {
        assert forall|i: int|
            0 <= i < self.escrows@.len() implies (#[trigger] self.escrows@[i]).1.valid() by {
            lemma_map_of_index(self.escrows@, i);
            let k = self.escrows@[i].0;
            if k == job_id {
                assert(self.escrows@[i].1 == rec);
            } else {
                assert(self@[k] == pre@[k]);
                let i0 = lemma_map_of_lookup(pre.escrows@, k);
            }
        }
        assert forall|j: u128|
            deposited_total(self.spec_events(), j) == released_total(self.spec_events(), j)
                + refunded_total(self.spec_events(), j) + #[trigger] self.live_amount(j) by {
            lemma_totals_push(pre.spec_events(), ev, j);
            assert(deposited_total(pre.spec_events(), j) == released_total(pre.spec_events(), j)
                + refunded_total(pre.spec_events(), j) + pre.live_amount(j));
            if j == job_id {
            } else {
                assert(self@.contains_key(j) == pre@.contains_key(j));
                if pre@.contains_key(j) {
                    assert(self@[j] == pre@[j]);
                }
                assert(self.live_amount(j) == pre.live_amount(j));
            }
        }
    }

    /// Changes the recorded provider.  Succeeds exactly when a record exists,
    /// the caller owns it, and it is not settled.
    pub fn set_provider(&mut self, caller: Principal, job_id: u128, provider: Principal) -> (r:
        bool)
        requires
            old(self).wf(),
        ensures
            final(self).wf(),
            r == (old(self)@.contains_key(job_id) && caller == old(self)@[job_id].owner && !old(self)@[job_id].terminal()),
            !r ==> *final(self) == *old(self),
            r ==> final(self)@ == old(self)@.insert(
                job_id,
                (Escrow { provider: Some(provider), ..old(self)@[job_id] }),
            ),
            r ==> final(self).spec_events() == old(self).spec_events().push(
                EscrowEvent::ProviderSet((ProviderSet { job_id: job_id, provider: provider })),
            ),
            final(self).spec_admin() == old(self).spec_admin(),
    {
        match self.find_index(job_id) {
            Some(i) => {
                proof {
                    lemma_map_of_index(self.escrows@, i as int);
                }
                let e = self.escrows[i].1;
                if caller == e.owner && !e.released && !e.refunded {
                    let rec = Escrow { provider: Some(provider), ..e };
                    let ev = EscrowEvent::ProviderSet(ProviderSet { job_id, provider });
                    self.escrows[i] = (job_id, rec);
                    self.events.push(ev);
                    proof {
                        lemma_map_of_update(old(self).escrows@, i as int, rec);
                        self.lemma_reestablish_after(*old(self), job_id, ev, rec);
                    }
                    true
                } else {
                    false
                }
            },
            None => {
                proof {
                    lemma_map_of_absent(self.escrows@, job_id);
                }
                false
            },
        }
    }

    /// Whether a release to the provider is currently permitted for `caller`.
    pub fn can_release(&self, caller: Principal, job_id: u128) -> (r: bool)
        requires
            self.wf(),
        ensures
            r == (self@.contains_key(job_id) && caller == self@[job_id].owner && !self@[job_id].terminal()
                && self@[job_id].provider is Some && self@[job_id].amount > 0),
    {
        match self.find_index(job_id) {
            Some(i) => {
                proof {
                    lemma_map_of_index(self.escrows@, i as int);
                }
                let e = self.escrows[i].1;
                caller == e.owner && !e.released && !e.refunded && e.provider.is_some()
                    && e.amount > 0
            },
            None => {
                proof {
                    lemma_map_of_absent(self.escrows@, job_id);
                }
                false
            },
        }
    }

    /// Whether a refund to the owner is currently permitted for `caller`.
    pub fn can_refund(&self, caller: Principal, job_id: u128) -> (r: bool)
        requires
            self.wf(),
        ensures
            r == (self@.contains_key(job_id) && caller == self@[job_id].owner && !self@[job_id].terminal()
                && self@[job_id].amount > 0),
    {
        match self.find_index(job_id) {
            Some(i) => {
                proof {
                    lemma_map_of_index(self.escrows@, i as int);
                }
                let e = self.escrows[i].1;
                caller == e.owner && !e.released && !e.refunded && e.amount > 0
            },
            None => {
                proof {
                    lemma_map_of_absent(self.escrows@, job_id);
                }
                false
            },
        }
    }

    /// Releases custody to the recorded provider.  The runtime attempts the
    /// outward transfer first and reports its outcome in
    /// `transfer_accepted`; on a rejected transfer nothing changes.
    /// Succeeds exactly when the caller owns a live, provider-bearing,
    /// funded record and the transfer was accepted.
    pub fn release_to_provider(&mut self, caller: Principal, job_id: u128, transfer_accepted: bool) -> (r: bool)
        requires
            old(self).wf(),
        ensures
            final(self).wf(),
            r == (old(self)@.contains_key(job_id) && caller == old(self)@[job_id].owner && !old(self)@[job_id].terminal() && old(self)@[job_id].provider is Some
                && old(self)@[job_id].amount > 0 && transfer_accepted),
            !r ==> *final(self) == *old(self),
            r ==> final(self)@ == old(self)@.insert(
                job_id,
                (Escrow { released: true, amount: 0, ..old(self)@[job_id] }),
            ),
            r ==> final(self).spec_events() == old(self).spec_events().push(
                EscrowEvent::Released(
                    (Released {
                        job_id: job_id,
                        provider: old(self)@[job_id].provider.unwrap(),
                        amount: old(self)@[job_id].amount,
                    }),
                ),
            ),
            final(self).spec_admin() == old(self).spec_admin(),
    {
        match self.find_index(job_id) {
            Some(i) => {
                proof {
                    lemma_map_of_index(self.escrows@, i as int);
                }
                let e = self.escrows[i].1;
                if caller == e.owner && !e.released && !e.refunded && e.amount > 0
                    && transfer_accepted {
                    match e.provider {
                        Some(p) => {
                            let rec = Escrow { released: true, amount: 0, ..e };
                            let ev = EscrowEvent::Released(
                                Released { job_id, provider: p, amount: e.amount },
                            );
                            self.escrows[i] = (job_id, rec);
                            self.events.push(ev);
                            proof {
                                lemma_map_of_update(old(self).escrows@, i as int, rec);
                                self.lemma_reestablish_after(*old(self), job_id, ev, rec);
                            }
                            true
                        },
                        None => false,
                    }
                } else {
                    false
                }
            },
            None => {
                proof {
                    lemma_map_of_absent(self.escrows@, job_id);
                }
                false
            },
        }
    }

    /// Refunds custody to the owner.  The runtime attempts the outward
    /// transfer first and reports its outcome in `transfer_accepted`; on a
    /// rejected transfer nothing changes.  Succeeds exactly when the caller
    /// owns a live, funded record and the transfer was accepted.
    pub fn refund_to_owner(&mut self, caller: Principal, job_id: u128, transfer_accepted: bool) -> (r: bool)
        requires
            old(self).wf(),
        ensures
            final(self).wf(),
            r == (old(self)@.contains_key(job_id) && caller == old(self)@[job_id].owner && !old(self)@[job_id].terminal() && old(self)@[job_id].amount > 0 && transfer_accepted),
            !r ==> *final(self) == *old(self),
            r ==> final(self)@ == old(self)@.insert(
                job_id,
                (Escrow { refunded: true, amount: 0, ..old(self)@[job_id] }),
            ),
            r ==> final(self).spec_events() == old(self).spec_events().push(
                EscrowEvent::Refunded(
                    (Refunded {
                        job_id: job_id,
                        owner: old(self)@[job_id].owner,
                        amount: old(self)@[job_id].amount,
                    }),
                ),
            ),
            final(self).spec_admin() == old(self).spec_admin(),
    {
        match self.find_index(job_id) {
            Some(i) => {
                proof {
                    lemma_map_of_index(self.escrows@, i as int);
                }
                let e = self.escrows[i].1;
                if caller == e.owner && !e.released && !e.refunded && e.amount > 0
                    && transfer_accepted {
                    let rec = Escrow { refunded: true, amount: 0, ..e };
                    let ev = EscrowEvent::Refunded(
                        Refunded { job_id, owner: e.owner, amount: e.amount },
                    );
                    self.escrows[i] = (job_id, rec);
                    self.events.push(ev);
                    proof {
                        lemma_map_of_update(old(self).escrows@, i as int, rec);
                        self.lemma_reestablish_after(*old(self), job_id, ev, rec);
                    }
                    true
                } else {
                    false
                }
            },
            None => {
                proof {
                    lemma_map_of_absent(self.escrows@, job_id);
                }
                false
            },
        }
    }

    /// Returns the record for a job, or `None` when none exists.
    pub fn get_escrow(&self, job_id: u128) -> (r: Option<Escrow>)
        requires
            self.wf(),
        ensures
            r == if self@.contains_key(job_id) {
                Some(self@[job_id])
            } else {
                None::<Escrow>
            },
    {
        match self.find_index(job_id) {
            Some(i) => {
                proof {
                    lemma_map_of_index(self.escrows@, i as int);
                }
                Some(self.escrows[i].1)
            },
            None => {
                proof {
                    lemma_map_of_absent(self.escrows@, job_id);
                }
                None
            },
        }
    }

    /// The principal that constructed the component.
    pub fn get_admin(&self) -> (r: Principal)
        ensures
            r == self.spec_admin(),
    {
        self.admin
    }

    /// Every event emitted so far, in emission order.
    pub fn get_events(&self) -> (r: &Vec<EscrowEvent>)
        ensures
            r@ == self.spec_events(),
    {
        &self.events
    }
}

} // verus!
