use vstd::prelude::*;
use crate::principal::Principal;

verus! {

/// Status of an intent or of a batch.  Intents move from `Pending` through
/// `Batched` to `Executed`; batches move from `Pending` to `Executed`.
#[derive(Clone, Copy, PartialEq, Eq, Structural, Debug)]
pub enum IntentStatus {
    Pending,
    Batched,
    Executed,
    Failed,
    Cancelled,
}

/// A user's encrypted trade intent, submitted before batching so that its
/// content cannot be front-run.
#[derive(Debug, PartialEq, Eq)]
pub struct Intent {
    pub intent_id: u128,
    pub user: Principal,
    pub encrypted_intent: String,
    pub token_in: String,
    pub token_out: String,
    pub min_output: u128,
    pub status: IntentStatus,
    pub created_at: u64,
    pub batch_id: Option<u128>,
}

impl Clone for Intent {
    fn clone(&self) -> (r: Self)
        ensures
            r == *self,
    {
        Intent {
            intent_id: self.intent_id,
            user: self.user,
            encrypted_intent: self.encrypted_intent.clone(),
            token_in: self.token_in.clone(),
            token_out: self.token_out.clone(),
            min_output: self.min_output,
            status: self.status,
            created_at: self.created_at,
            batch_id: self.batch_id,
        }
    }
}

/// An ordered group of intents executed together along one route.  The
/// order of `intent_ids` is exactly the order the creator supplied.
#[derive(Debug, PartialEq, Eq)]
pub struct Batch {
    pub batch_id: u128,
    pub intent_ids: Vec<u128>,
    pub intent_count: u32,
    pub total_volume: u128,
    pub execution_route: String,
    pub status: IntentStatus,
    pub created_at: u64,
    pub executed_at: Option<u64>,
}

/// Two batch records that agree on every attribute, the intent list
/// compared element by element.
pub open spec fn batch_matches(a: Batch, b: Batch) -> bool {
    &&& a.batch_id == b.batch_id
    &&& a.intent_ids@ == b.intent_ids@
    &&& a.intent_count == b.intent_count
    &&& a.total_volume == b.total_volume
    &&& a.execution_route == b.execution_route
    &&& a.status == b.status
    &&& a.created_at == b.created_at
    &&& a.executed_at == b.executed_at
}

impl Clone for Batch {
    fn clone(&self) -> (r: Self)
        ensures
            batch_matches(r, *self),
    {
        let mut ids: Vec<u128> = Vec::new();
        let mut k: usize = 0;
        while k < self.intent_ids.len()
            invariant
                k <= self.intent_ids@.len(),
                ids@ == self.intent_ids@.take(k as int),
            decreases self.intent_ids@.len() - k,
        {
            ids.push(self.intent_ids[k]);
            proof {
                assert(ids@ =~= self.intent_ids@.take(k as int + 1));
            }
            k = k + 1;
        }
        proof {
            assert(ids@ =~= self.intent_ids@);
        }
        Batch {
            batch_id: self.batch_id,
            intent_ids: ids,
            intent_count: self.intent_count,
            total_volume: self.total_volume,
            execution_route: self.execution_route.clone(),
            status: self.status,
            created_at: self.created_at,
            executed_at: self.executed_at,
        }
    }
}

/// The outcome recorded for an executed batch.
#[derive(Debug, PartialEq, Eq)]
pub struct BatchResult {
    pub batch_id: u128,
    pub success: bool,
    pub total_input_amount: u128,
    pub total_output_amount: u128,
    pub execution_price: String,
    pub timestamp: u64,
}

impl Clone for BatchResult {
    fn clone(&self) -> (r: Self)
        ensures
            r == *self,
    {
        BatchResult {
            batch_id: self.batch_id,
            success: self.success,
            total_input_amount: self.total_input_amount,
            total_output_amount: self.total_output_amount,
            execution_price: self.execution_price.clone(),
            timestamp: self.timestamp,
        }
    }
}

/// Emitted when an intent is submitted.
#[derive(Clone, Copy, PartialEq, Eq, Structural, Debug)]
pub struct IntentSubmitted {
    pub intent_id: u128,
}

/// Emitted when a batch is created.
#[derive(Clone, Copy, PartialEq, Eq, Structural, Debug)]
pub struct BatchCreated {
    pub batch_id: u128,
}

/// Emitted when a batch is executed.
#[derive(Clone, Copy, PartialEq, Eq, Structural, Debug)]
pub struct BatchExecuted {
    pub batch_id: u128,
}

/// The event a successful coordinator operation emits.
#[derive(Clone, Copy, PartialEq, Eq, Structural, Debug)]
pub enum MevEvent {
    IntentSubmitted(IntentSubmitted),
    BatchCreated(BatchCreated),
    BatchExecuted(BatchExecuted),
}

/// Caps a non-negative mathematical amount at the numeric bound.
pub open spec fn sat128(x: int) -> u128 {
    if x > u128::MAX {
        u128::MAX
    } else {
        x as u128
    }
}

/// The intent store after the intents named in `ids` are placed into batch
/// `b`: each named intent that exists becomes `Batched` and points at `b`;
/// names without a record change nothing.
pub open spec fn intents_batched(intents: Seq<Intent>, ids: Seq<u128>, b: u128) -> Seq<Intent> {
    Seq::new(
        intents.len(),
        |k: int|
            if ids.contains(intents[k].intent_id) {
                Intent { status: IntentStatus::Batched, batch_id: Some(b), ..intents[k] }
            } else {
                intents[k]
            },
    )
}

/// The intent store after the intents named in `ids` are executed: each
/// named intent that exists becomes `Executed`, keeping its batch.
pub open spec fn intents_executed(intents: Seq<Intent>, ids: Seq<u128>) -> Seq<Intent> {
    Seq::new(
        intents.len(),
        |k: int|
            if ids.contains(intents[k].intent_id) {
                Intent { status: IntentStatus::Executed, ..intents[k] }
            } else {
                intents[k]
            },
    )
}

/// The combined minimum output of the named intents that exist, each name
/// counted as often as it is listed; a name without a record adds nothing.
pub open spec fn volume_of(intents: Seq<Intent>, ids: Seq<u128>) -> int
    decreases ids.len(),
{
    if ids.len() == 0 {
        0
    } else {
        volume_of(intents, ids.drop_last()) + {
            let id = ids.last();
            if 1 <= id <= intents.len() {
                intents[id as int - 1].min_output as int
            } else {
                0
            }
        }
    }
}

/// A combined volume is never negative.
pub proof fn lemma_volume_nonneg(intents: Seq<Intent>, ids: Seq<u128>)
    ensures
        volume_of(intents, ids) >= 0,
    decreases ids.len(),
{
    if ids.len() > 0 {
        lemma_volume_nonneg(intents, ids.drop_last());
    }
}

/// The batch coordinator: encrypted intents under dense identifiers,
/// batches that preserve the creator's supplied order verbatim, and one
/// result slot per batch.
pub struct MEVProtection {
    intents: Vec<Intent>,
    batches: Vec<Batch>,
    batch_results: Vec<Option<BatchResult>>,
    admin: Principal,
    batch_size: u32,
    min_batch_size: u32,
    events: Vec<MevEvent>,
}

impl View for MEVProtection {
    type V = Seq<Intent>;

    closed spec fn view(&self) -> Seq<Intent> {
        self.intents@
    }
}

impl MEVProtection {
    /// The principal that constructed the coordinator.
    pub closed spec fn spec_admin(&self) -> Principal {
        self.admin
    }

    /// The largest batch the coordinator accepts.
    pub closed spec fn spec_batch_size(&self) -> u32 {
        self.batch_size
    }

    /// The smallest batch the coordinator accepts.
    pub closed spec fn spec_min_batch_size(&self) -> u32 {
        self.min_batch_size
    }

    /// The batch records, in creation order.
    pub closed spec fn spec_batches(&self) -> Seq<Batch> {
        self.batches@
    }

    /// The result slots, one per batch, in batch order.
    pub closed spec fn spec_results(&self) -> Seq<Option<BatchResult>> {
        self.batch_results@
    }

    /// Every event emitted so far, in emission order.
    pub closed spec fn spec_events(&self) -> Seq<MevEvent> {
        self.events@
    }

    /// A record exists for `intent_id`.
    pub open spec fn has_intent(&self, intent_id: u128) -> bool {
        1 <= intent_id <= self@.len()
    }

    /// The record stored under `intent_id`.
    pub open spec fn intent(&self, intent_id: u128) -> Intent
        recommends
            self.has_intent(intent_id),
    {
        self@[intent_id as int - 1]
    }

    /// A record exists for `batch_id`.
    pub open spec fn has_batch(&self, batch_id: u128) -> bool {
        1 <= batch_id <= self.spec_batches().len()
    }

    /// The record stored under `batch_id`.
    pub open spec fn batch(&self, batch_id: u128) -> Batch
        recommends
            self.has_batch(batch_id),
    {
        self.spec_batches()[batch_id as int - 1]
    }

    /// One intent record is coherent with the batch store: a pending intent
    /// belongs to no batch, and a batched one points at an existing batch
    /// whose list names it.
    pub open spec fn intent_coherent(&self, k: int) -> bool {
        &&& (self@[k].batch_id is Some ==> {
            let b = self@[k].batch_id.unwrap();
            &&& 1 <= b <= self.spec_batches().len()
            &&& self.spec_batches()[b as int - 1].intent_ids@.contains(self@[k].intent_id)
            &&& (self@[k].status == IntentStatus::Batched || self@[k].status
                == IntentStatus::Executed)
        })
    }

    /// Well-formedness: dense identifiers on both stores, one result slot
    /// per batch, coherent intents, batches whose counters match their
    /// lists, and results standing exactly for executed batches.
    pub open spec fn wf(&self) -> bool {
        &&& forall|k: int|
            0 <= k < self@.len() ==> (#[trigger] self@[k]).intent_id == k + 1
        &&& forall|k: int| 0 <= k < self@.len() ==> self.intent_coherent(k)
        &&& forall|m: int|
            0 <= m < self.spec_batches().len() ==> (#[trigger] self.spec_batches()[m]).batch_id
                == m + 1
        &&& self.spec_results().len() == self.spec_batches().len()
        &&& forall|m: int|
            0 <= m < self.spec_batches().len() ==> (#[trigger] self.spec_batches()[m]).intent_count
                == self.spec_batches()[m].intent_ids@.len()
        &&& forall|m: int|
            0 <= m < self.spec_batches().len() ==> ((#[trigger] self.spec_batches()[m]).status
                == IntentStatus::Pending || self.spec_batches()[m].status == IntentStatus::Executed)
        &&& forall|m: int|
            0 <= m < self.spec_batches().len() ==> ((#[trigger] self.spec_batches()[m]).executed_at
                is Some <==> self.spec_batches()[m].status == IntentStatus::Executed)
        &&& forall|m: int|
            0 <= m < self.spec_batches().len() ==> ((#[trigger] self.spec_results()[m]) is Some
                <==> self.spec_batches()[m].status == IntentStatus::Executed)
        &&& self.spec_min_batch_size() <= self.spec_batch_size()
    }

    /// No intent name is shared by two batches.
    pub open spec fn batches_disjoint(&self) -> bool {
        forall|b1: int, b2: int, x: u128|
            0 <= b1 < b2 < self.spec_batches().len() ==> !(#[trigger] self.spec_batches()[
            b1].intent_ids@.contains(x) && #[trigger] self.spec_batches()[b2].intent_ids@.contains(
                x,
            ))
    }

    /// Batch referential integrity: when no intent name is shared between
    /// batches, an intent named by a batch and batched at all points back
    /// at exactly that batch, with a status at least `Batched`.  (An intent
    /// submitted only after its name was listed, or listed by two batches,
    /// is outside this statement.)
    pub proof fn lemma_batch_referential_integrity(&self, b: u128, i: u128)
        requires
            self.wf(),
            self.batches_disjoint(),
            self.has_batch(b),
            self.batch(b).intent_ids@.contains(i),
            self.has_intent(i),
            self.intent(i).batch_id is Some,
        ensures
            self.intent(i).batch_id == Some(b),
            self.intent(i).status == IntentStatus::Batched || self.intent(i).status
                == IntentStatus::Executed,
    {
        let k = i as int - 1;
        assert(self.intent_coherent(k));
        let bb = self@[k].batch_id.unwrap();
        assert(self.spec_batches()[bb as int - 1].intent_ids@.contains(i));
        if bb < b {
            assert(!(self.spec_batches()[bb as int - 1].intent_ids@.contains(i)
                && self.spec_batches()[b as int - 1].intent_ids@.contains(i)));
        } else if b < bb {
            assert(!(self.spec_batches()[b as int - 1].intent_ids@.contains(i)
                && self.spec_batches()[bb as int - 1].intent_ids@.contains(i)));
        }
    }

    /// Identifier density: the intent at position `k` carries id `k + 1` and
    /// the batch at position `m` carries id `m + 1`, so both allocators hand
    /// out exactly `1, 2, 3, ...` in order.
    pub proof fn lemma_ids_dense(&self)
        requires
            self.wf(),
        ensures
            forall|k: int| 0 <= k < self@.len() ==> (#[trigger] self@[k]).intent_id == k + 1,
            forall|m: int|
                0 <= m < self.spec_batches().len() ==> (#[trigger] self.spec_batches()[m]).batch_id
                    == m + 1,
    {
    }

    /// Creates an empty coordinator administered by `caller`, accepting
    /// batches of 5 to 100 intents until reconfigured.
    pub fn new(caller: Principal) -> (s: Self)
        ensures
            s.wf(),
            s@ == Seq::<Intent>::empty(),
            s.spec_batches() == Seq::<Batch>::empty(),
            s.spec_results() == Seq::<Option<BatchResult>>::empty(),
            s.spec_admin() == caller,
            s.spec_batch_size() == 100,
            s.spec_min_batch_size() == 5,
            s.spec_events() == Seq::<MevEvent>::empty(),
    {
        MEVProtection {
            intents: Vec::new(),
            batches: Vec::new(),
            batch_results: Vec::new(),
            admin: caller,
            batch_size: 100,
            min_batch_size: 5,
            events: Vec::new(),
        }
    }

    /// Submits an encrypted intent; always succeeds and allocates the next
    /// identifier.  The new intent is `Pending` and belongs to no batch.
    pub fn submit_intent(
        &mut self,
        caller: Principal,
        now: u64,
        encrypted_intent: String,
        token_in: String,
        token_out: String,
        min_output: u128,
    ) -> (r: u128)
        requires
            old(self).wf(),
        ensures
            final(self).wf(),
            r == old(self)@.len() + 1,
            final(self)@ == old(self)@.push(
                (Intent {
                    intent_id: r,
                    user: caller,
                    encrypted_intent: encrypted_intent,
                    token_in: token_in,
                    token_out: token_out,
                    min_output: min_output,
                    status: IntentStatus::Pending,
                    created_at: now,
                    batch_id: None,
                }),
            ),
            final(self).spec_events() == old(self).spec_events().push(
                MevEvent::IntentSubmitted((IntentSubmitted { intent_id: r })),
            ),
            final(self).spec_batches() == old(self).spec_batches(),
            final(self).spec_results() == old(self).spec_results(),
            final(self).spec_admin() == old(self).spec_admin(),
            final(self).spec_batch_size() == old(self).spec_batch_size(),
            final(self).spec_min_batch_size() == old(self).spec_min_batch_size(),
    {
        let intent_id: u128 = (self.intents.len() as u128) + 1;
        let intent = Intent {
            intent_id,
            user: caller,
            encrypted_intent,
            token_in,
            token_out,
            min_output,
            status: IntentStatus::Pending,
            created_at: now,
            batch_id: None,
        };
        self.intents.push(intent);
        self.events.push(MevEvent::IntentSubmitted(IntentSubmitted { intent_id }));
        proof {
            assert forall|k: int| 0 <= k < self@.len() implies self.intent_coherent(k) by {
                if k < self@.len() - 1 {
                    assert(old(self).intent_coherent(k));
                    assert(self@[k] == old(self)@[k]);
                }
            }
        }
        intent_id
    }

    /// Creates a batch over the named intents.  Returns 0 and changes
    /// nothing when the count lies outside the configured bounds; otherwise
    /// allocates the next batch id, marks every named intent that exists as
    /// `Batched` into it (names without a record are skipped), records the
    /// supplied order verbatim, and sums the named minimum outputs.
    pub fn create_batch(&mut self, now: u64, intent_ids: Vec<u128>, execution_route: String) -> (r:
        u128)
        requires
            old(self).wf(),
        ensures
            final(self).wf(),
            !(old(self).spec_min_batch_size() <= intent_ids@.len()
                <= old(self).spec_batch_size()) ==> r == 0 && *final(self) == *old(self),
            old(self).spec_min_batch_size() <= intent_ids@.len() <= old(self).spec_batch_size()
                ==> {
                &&& r == old(self).spec_batches().len() + 1
                &&& final(self)@ == intents_batched(old(self)@, intent_ids@, r)
                &&& final(self).spec_batches() == old(self).spec_batches().push(
                    (Batch {
                        batch_id: r,
                        intent_ids: intent_ids,
                        intent_count: intent_ids@.len() as u32,
                        total_volume: sat128(volume_of(old(self)@, intent_ids@)),
                        execution_route: execution_route,
                        status: IntentStatus::Pending,
                        created_at: now,
                        executed_at: None,
                    }),
                )
                &&& final(self).spec_results() == old(self).spec_results().push(
                    None::<BatchResult>,
                )
                &&& final(self).spec_events() == old(self).spec_events().push(
                    MevEvent::BatchCreated((BatchCreated { batch_id: r })),
                )
            },
            final(self).spec_admin() == old(self).spec_admin(),
            final(self).spec_batch_size() == old(self).spec_batch_size(),
            final(self).spec_min_batch_size() == old(self).spec_min_batch_size(),
    {
        let n: usize = intent_ids.len();
        if n < self.min_batch_size as usize || n > self.batch_size as usize {
            return 0;
        }
        let batch_id: u128 = (self.batches.len() as u128) + 1;
        let mut volume: u128 = 0;
        let mut j: usize = 0;
        proof {
            assert(self.intents@ =~= intents_batched(old(self)@, intent_ids@.take(0), batch_id));
            assert(volume_of(old(self)@, intent_ids@.take(0)) == 0);
        }
        while j < n
            invariant
                old(self).wf(),
                n == intent_ids@.len(),
                j <= n,
                self.intents@ == intents_batched(
                    old(self)@,
                    intent_ids@.take(j as int),
                    batch_id,
                ),
                volume == sat128(volume_of(old(self)@, intent_ids@.take(j as int))),
                self.batches@ == old(self).batches@,
                self.batch_results@ == old(self).batch_results@,
                self.events@ == old(self).events@,
                self.admin == old(self).admin,
                self.batch_size == old(self).batch_size,
                self.min_batch_size == old(self).min_batch_size,
            decreases n - j,
        {
            let id: u128 = intent_ids[j];
            proof {
                lemma_volume_nonneg(old(self)@, intent_ids@.take(j as int));
                assert(intent_ids@.take(j as int + 1).drop_last() =~= intent_ids@.take(j as int));
                assert(intent_ids@.take(j as int + 1).last() == id);
                assert forall|x: u128|
                    intent_ids@.take(j as int + 1).contains(x) == (intent_ids@.take(
                        j as int,
                    ).contains(x) || id == x) by {
                    let t1 = intent_ids@.take(j as int + 1);
                    let t0 = intent_ids@.take(j as int);
                    if t1.contains(x) {
                        let w = choose|m: int| 0 <= m < t1.len() && t1[m] == x;
                        if w < j as int {
                            assert(t0[w] == x);
                        }
                    }
                    if t0.contains(x) {
                        let w = choose|m: int| 0 <= m < t0.len() && t0[m] == x;
                        assert(t1[w] == x);
                    }
                    if id == x {
                        assert(t1[j as int] == x);
                    }
                }
            }
            if id >= 1 && id <= self.intents.len() as u128 {
                let idx: usize = (id - 1) as usize;
                let m = self.intents[idx].min_output;
                let updated = {
                    let cur = &self.intents[idx];
                    let mut c = cur.clone();
                    c.status = IntentStatus::Batched;
                    c.batch_id = Some(batch_id);
                    c
                };
                self.intents[idx] = updated;
                volume = volume.saturating_add(m);
                proof {
                    assert(old(self)@[idx as int].intent_id == idx + 1);
                    assert(self.intents@ =~= intents_batched(
                        old(self)@,
                        intent_ids@.take(j as int + 1),
                        batch_id,
                    ));
                }
            } else {
                proof {
                    assert forall|k: int|
                        0 <= k < old(self)@.len() implies (intent_ids@.take(
                        j as int + 1,
                    ).contains(old(self)@[k].intent_id) == intent_ids@.take(j as int).contains(
                        old(self)@[k].intent_id,
                    )) by {
                        assert(old(self)@[k].intent_id == k + 1);
                    }
                    assert(self.intents@ =~= intents_batched(
                        old(self)@,
                        intent_ids@.take(j as int + 1),
                        batch_id,
                    ));
                }
            }
            j = j + 1;
        }
        proof {
            assert(intent_ids@.take(n as int) =~= intent_ids@);
        }
        let count: u32 = n as u32;
        let batch = Batch {
            batch_id,
            intent_ids,
            intent_count: count,
            total_volume: volume,
            execution_route,
            status: IntentStatus::Pending,
            created_at: now,
            executed_at: None,
        };
        self.batches.push(batch);
        self.batch_results.push(None);
        self.events.push(MevEvent::BatchCreated(BatchCreated { batch_id }));
        proof {
            self.lemma_wf_after_create(*old(self), intent_ids@, batch_id);
        }
        batch_id
    }

    /// Re-establishes well-formedness after a batch creation.
    proof fn lemma_wf_after_create(&self, pre: MEVProtection, ids: Seq<u128>, b: u128)
        requires
            pre.wf(),
            b == pre.spec_batches().len() + 1,
            self@ == intents_batched(pre@, ids, b),
            self.spec_batches().len() == pre.spec_batches().len() + 1,
            forall|m: int|
                0 <= m < pre.spec_batches().len() ==> self.spec_batches()[m]
                    == pre.spec_batches()[m],
            self.spec_batches().last().batch_id == b,
            self.spec_batches().last().intent_ids@ == ids,
            self.spec_batches().last().intent_count == ids.len(),
            self.spec_batches().last().status == IntentStatus::Pending,
            self.spec_batches().last().executed_at is None,
            self.spec_results() == pre.spec_results().push(None::<BatchResult>),
            self.min_batch_size == pre.min_batch_size,
            self.batch_size == pre.batch_size,
        ensures
            self.wf(),
    {
        assert forall|k: int| 0 <= k < self@.len() implies (#[trigger] self@[k]).intent_id == k
            + 1 by {
            assert(pre@[k].intent_id == k + 1);
        }
        assert forall|k: int| 0 <= k < self@.len() implies self.intent_coherent(k) by {
            assert(pre.intent_coherent(k));
            assert(pre@[k].intent_id == k + 1);
            if ids.contains(pre@[k].intent_id) {
                assert(self@[k] == (Intent {
                    status: IntentStatus::Batched,
                    batch_id: Some(b),
                    ..pre@[k]
                }));
                assert(self.spec_batches()[b as int - 1].intent_ids@.contains(self@[k].intent_id));
            } else {
                assert(self@[k] == pre@[k]);
                if pre@[k].batch_id is Some {
                    let bb = pre@[k].batch_id.unwrap();
                    assert(self.spec_batches()[bb as int - 1] == pre.spec_batches()[bb as int
                        - 1]);
                }
            }
        }
        assert forall|m: int|
            0 <= m < self.spec_batches().len() implies (#[trigger] self.spec_batches()[
        m]).batch_id == m + 1 by {
            if m < self.spec_batches().len() - 1 {
                assert(pre.spec_batches()[m].batch_id == m + 1);
            }
        }
    }

    /// Executes a batch: marks it and every intent it names as `Executed`
    /// and records the result.  Succeeds exactly when the batch exists; the
    /// recorded input is the combined minimum output of the named intents,
    /// the recorded output the amount the route actually returned.
    pub fn execute_batch(
        &mut self,
        now: u64,
        batch_id: u128,
        actual_output: u128,
        execution_price: String,
    ) -> (r: bool)
        requires
            old(self).wf(),
        ensures
            final(self).wf(),
            r == old(self).has_batch(batch_id),
            !r ==> *final(self) == *old(self),
            r ==> final(self)@ == intents_executed(
                old(self)@,
                old(self).batch(batch_id).intent_ids@,
            ),
            r ==> final(self).spec_batches() == old(self).spec_batches().update(
                batch_id as int - 1,
                (Batch {
                    status: IntentStatus::Executed,
                    executed_at: Some(now),
                    ..old(self).batch(batch_id)
                }),
            ),
            r ==> final(self).spec_results() == old(self).spec_results().update(
                batch_id as int - 1,
                Some(
                    (BatchResult {
                        batch_id: batch_id,
                        success: true,
                        total_input_amount: sat128(
                            volume_of(old(self)@, old(self).batch(batch_id).intent_ids@),
                        ),
                        total_output_amount: actual_output,
                        execution_price: execution_price,
                        timestamp: now,
                    }),
                ),
            ),
            r ==> final(self).spec_events() == old(self).spec_events().push(
                MevEvent::BatchExecuted((BatchExecuted { batch_id: batch_id })),
            ),
            final(self).spec_admin() == old(self).spec_admin(),
            final(self).spec_batch_size() == old(self).spec_batch_size(),
            final(self).spec_min_batch_size() == old(self).spec_min_batch_size(),
    {
        if !(batch_id >= 1 && batch_id <= self.batches.len() as u128) {
            return false;
        }
        let bidx: usize = (batch_id - 1) as usize;
        let ids: Vec<u128> = {
            let mut ids: Vec<u128> = Vec::new();
            let mut k: usize = 0;
            while k < self.batches[bidx].intent_ids.len()
                invariant
                    bidx < self.batches@.len(),
                    k <= self.batches@[bidx as int].intent_ids@.len(),
                    ids@ == self.batches@[bidx as int].intent_ids@.take(k as int),
                decreases self.batches@[bidx as int].intent_ids@.len() - k,
            {
                ids.push(self.batches[bidx].intent_ids[k]);
                proof {
                    assert(ids@ =~= self.batches@[bidx as int].intent_ids@.take(k as int + 1));
                }
                k = k + 1;
            }
            proof {
                assert(ids@ =~= self.batches@[bidx as int].intent_ids@);
            }
            ids
        };
        let n: usize = ids.len();
        let mut total_input: u128 = 0;
        let mut j: usize = 0;
        proof {
            assert(volume_of(old(self)@, ids@.take(0)) == 0);
        }
        while j < n
            invariant
                old(self).wf(),
                n == ids@.len(),
                j <= n,
                *self == *old(self),
                total_input == sat128(volume_of(old(self)@, ids@.take(j as int))),
            decreases n - j,
        {
            proof {
                lemma_volume_nonneg(old(self)@, ids@.take(j as int));
                assert(ids@.take(j as int + 1).drop_last() =~= ids@.take(j as int));
                assert(ids@.take(j as int + 1).last() == ids@[j as int]);
            }
            let id: u128 = ids[j];
            if id >= 1 && id <= self.intents.len() as u128 {
                let idx: usize = (id - 1) as usize;
                total_input = total_input.saturating_add(self.intents[idx].min_output);
            }
            j = j + 1;
        }
        proof {
            assert(ids@.take(n as int) =~= ids@);
        }
        let mut j2: usize = 0;
        proof {
            assert(self.intents@ =~= intents_executed(old(self)@, ids@.take(0)));
        }
        while j2 < n
            invariant
                old(self).wf(),
                n == ids@.len(),
                j2 <= n,
                self.intents@ == intents_executed(old(self)@, ids@.take(j2 as int)),
                self.batches@ == old(self).batches@,
                self.batch_results@ == old(self).batch_results@,
                self.events@ == old(self).events@,
                self.admin == old(self).admin,
                self.batch_size == old(self).batch_size,
                self.min_batch_size == old(self).min_batch_size,
            decreases n - j2,
        {
            let id: u128 = ids[j2];
            proof {
                assert forall|x: u128|
                    ids@.take(j2 as int + 1).contains(x) == (ids@.take(j2 as int).contains(x) || id
                        == x) by {
                    let t1 = ids@.take(j2 as int + 1);
                    let t0 = ids@.take(j2 as int);
                    if t1.contains(x) {
                        let w = choose|m: int| 0 <= m < t1.len() && t1[m] == x;
                        if w < j2 as int {
                            assert(t0[w] == x);
                        }
                    }
                    if t0.contains(x) {
                        let w = choose|m: int| 0 <= m < t0.len() && t0[m] == x;
                        assert(t1[w] == x);
                    }
                    if id == x {
                        assert(t1[j2 as int] == x);
                    }
                }
            }
            if id >= 1 && id <= self.intents.len() as u128 {
                let idx: usize = (id - 1) as usize;
                let updated = {
                    let cur = &self.intents[idx];
                    let mut c = cur.clone();
                    c.status = IntentStatus::Executed;
                    c
                };
                self.intents[idx] = updated;
                proof {
                    assert(old(self)@[idx as int].intent_id == idx + 1);
                    assert(self.intents@ =~= intents_executed(
                        old(self)@,
                        ids@.take(j2 as int + 1),
                    ));
                }
            } else {
                proof {
                    assert forall|k: int|
                        0 <= k < old(self)@.len() implies (ids@.take(j2 as int + 1).contains(
                        old(self)@[k].intent_id,
                    ) == ids@.take(j2 as int).contains(old(self)@[k].intent_id)) by {
                        assert(old(self)@[k].intent_id == k + 1);
                    }
                    assert(self.intents@ =~= intents_executed(
                        old(self)@,
                        ids@.take(j2 as int + 1),
                    ));
                }
            }
            j2 = j2 + 1;
        }
        proof {
            assert(ids@.take(n as int) =~= ids@);
        }
        {
            let bref = &mut self.batches[bidx];
            bref.status = IntentStatus::Executed;
            bref.executed_at = Some(now);
        }
        self.batch_results[bidx] = Some(
            BatchResult {
                batch_id,
                success: true,
                total_input_amount: total_input,
                total_output_amount: actual_output,
                execution_price,
                timestamp: now,
            },
        );
        self.events.push(MevEvent::BatchExecuted(BatchExecuted { batch_id }));
        proof {
            self.lemma_wf_after_execute(*old(self), batch_id, now);
        }
        true
    }

    /// Re-establishes well-formedness after a batch execution.
    proof fn lemma_wf_after_execute(&self, pre: MEVProtection, b: u128, now: u64)
        requires
            pre.wf(),
            pre.has_batch(b),
            self@ == intents_executed(pre@, pre.batch(b).intent_ids@),
            self.spec_batches() == pre.spec_batches().update(
                b as int - 1,
                (Batch {
                    status: IntentStatus::Executed,
                    executed_at: Some(now),
                    ..pre.batch(b)
                }),
            ),
            self.spec_results().len() == pre.spec_results().len(),
            self.spec_results()[b as int - 1] is Some,
            forall|m: int|
                0 <= m < pre.spec_results().len() && m != b as int - 1
                    ==> #[trigger] self.spec_results()[m] == pre.spec_results()[m],
            self.min_batch_size == pre.min_batch_size,
            self.batch_size == pre.batch_size,
        ensures
            self.wf(),
    {
        let ids = pre.batch(b).intent_ids@;
        assert forall|k: int| 0 <= k < self@.len() implies (#[trigger] self@[k]).intent_id == k
            + 1 by {
            assert(pre@[k].intent_id == k + 1);
        }
        assert forall|k: int| 0 <= k < self@.len() implies self.intent_coherent(k) by {
            assert(pre.intent_coherent(k));
            assert(pre@[k].intent_id == k + 1);
            if pre@[k].batch_id is Some {
                let bb = pre@[k].batch_id.unwrap();
                assert(pre.spec_batches()[bb as int - 1].intent_ids@.contains(pre@[k].intent_id));
                assert(self.spec_batches()[bb as int - 1].intent_ids@ == pre.spec_batches()[bb
                    as int - 1].intent_ids@);
            }
        }
        assert forall|m: int|
            0 <= m < self.spec_batches().len() implies (#[trigger] self.spec_batches()[
        m]).batch_id == m + 1 by {
            assert(pre.spec_batches()[m].batch_id == m + 1);
        }
    }

    /// Returns the intent under `intent_id`, or `None` when none exists.
    pub fn get_intent(&self, intent_id: u128) -> (r: Option<Intent>)
        ensures
            r == if self.has_intent(intent_id) {
                Some(self.intent(intent_id))
            } else {
                None::<Intent>
            },
    {
        if intent_id >= 1 && intent_id <= self.intents.len() as u128 {
            let idx: usize = (intent_id - 1) as usize;
            Some(self.intents[idx].clone())
        } else {
            None
        }
    }

    /// Returns the batch under `batch_id`, or `None` when none exists.
    pub fn get_batch(&self, batch_id: u128) -> (r: Option<Batch>)
        ensures
            match r {
                Some(b) => self.has_batch(batch_id) && batch_matches(b, self.batch(batch_id)),
                None => !self.has_batch(batch_id),
            },
    {
        if batch_id >= 1 && batch_id <= self.batches.len() as u128 {
            let idx: usize = (batch_id - 1) as usize;
            Some(self.batches[idx].clone())
        } else {
            None
        }
    }

    /// Returns the result recorded for a batch, if any.
    pub fn get_batch_result(&self, batch_id: u128) -> (r: Option<BatchResult>)
        ensures
            r == if 1 <= batch_id <= self.spec_results().len() {
                self.spec_results()[batch_id as int - 1]
            } else {
                None::<BatchResult>
            },
    {
        if batch_id >= 1 && batch_id <= self.batch_results.len() as u128 {
            let idx: usize = (batch_id - 1) as usize;
            match &self.batch_results[idx] {
                Some(res) => Some(res.clone()),
                None => None,
            }
        } else {
            None
        }
    }

    /// The number of intents submitted so far, equal to the last allocated
    /// id.
    pub fn get_intent_counter(&self) -> (r: u128)
        ensures
            r == self@.len(),
    {
        self.intents.len() as u128
    }

    /// The number of batches created so far, equal to the last allocated id.
    pub fn get_batch_counter(&self) -> (r: u128)
        ensures
            r == self.spec_batches().len(),
    {
        self.batches.len() as u128
    }

    /// The coordinator keeps no index of pending intents; this always
    /// reports zero.
    pub fn get_pending_intents(&self) -> (r: u32)
        ensures
            r == 0,
    {
        0
    }

    /// The count, volume and execution flag of a batch; zeros when no such
    /// batch exists.
    pub fn get_batch_stats(&self, batch_id: u128) -> (r: (u32, u128, bool))
        ensures
            r == if self.has_batch(batch_id) {
                (
                    self.batch(batch_id).intent_count,
                    self.batch(batch_id).total_volume,
                    self.batch(batch_id).status == IntentStatus::Executed,
                )
            } else {
                (0u32, 0u128, false)
            },
    {
        if batch_id >= 1 && batch_id <= self.batches.len() as u128 {
            let idx: usize = (batch_id - 1) as usize;
            let b = &self.batches[idx];
            let executed = match b.status {
                IntentStatus::Executed => true,
                _ => false,
            };
            (b.intent_count, b.total_volume, executed)
        } else {
            (0, 0, false)
        }
    }

    /// Reconfigures the accepted batch sizes.  Succeeds exactly when the
    /// caller is the admin and the minimum does not exceed the maximum; any
    /// other call leaves the coordinator unchanged.
    pub fn set_batch_config(&mut self, caller: Principal, batch_size: u32, min_batch_size: u32) -> (r:
        bool)
        requires
            old(self).wf(),
        ensures
            final(self).wf(),
            r == (caller == old(self).spec_admin() && min_batch_size <= batch_size),
            !r ==> *final(self) == *old(self),
            r ==> final(self).spec_batch_size() == batch_size && final(self).spec_min_batch_size()
                == min_batch_size,
            final(self)@ == old(self)@,
            final(self).spec_batches() == old(self).spec_batches(),
            final(self).spec_results() == old(self).spec_results(),
            final(self).spec_events() == old(self).spec_events(),
            final(self).spec_admin() == old(self).spec_admin(),
    {
        if !(caller == self.admin) {
            return false;
        }
        if min_batch_size > batch_size {
            return false;
        }
        self.batch_size = batch_size;
        self.min_batch_size = min_batch_size;
        proof {
            assert forall|k: int| 0 <= k < self@.len() implies self.intent_coherent(k) by {
                assert(old(self).intent_coherent(k));
            }
        }
        true
    }

    /// Every event emitted so far, in emission order.
    pub fn get_events(&self) -> (r: &Vec<MevEvent>)
        ensures
            r@ == self.spec_events(),
    {
        &self.events
    }
}

} // verus!
