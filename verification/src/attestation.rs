use vstd::prelude::*;
use crate::principal::Principal;

verus! {

/// A confidential job: an encrypted payload held for execution inside a
/// trusted-execution worker, opaque to this core.
#[derive(Debug, PartialEq, Eq)]
pub struct ConfidentialJob {
    pub job_id: u128,
    pub owner: Principal,
    pub encrypted_payload: String,
    pub public_key: String,
    pub created_at: u64,
    pub processed: bool,
}

impl Clone for ConfidentialJob {
    fn clone(&self) -> (r: Self)
        ensures
            r == *self,
    {
        ConfidentialJob {
            job_id: self.job_id,
            owner: self.owner,
            encrypted_payload: self.encrypted_payload.clone(),
            public_key: self.public_key.clone(),
            created_at: self.created_at,
            processed: self.processed,
        }
    }
}

/// The attestation a trusted-execution worker recorded for a job.  The core
/// stores the proof opaquely; its cryptographic validity is checked outside.
#[derive(Debug, PartialEq, Eq)]
pub struct JobAttestation {
    pub job_id: u128,
    pub result_hash: String,
    pub attestation_proof: String,
    pub tee_worker_pubkey: String,
    pub timestamp: u64,
}

impl Clone for JobAttestation {
    fn clone(&self) -> (r: Self)
        ensures
            r == *self,
    {
        JobAttestation {
            job_id: self.job_id,
            result_hash: self.result_hash.clone(),
            attestation_proof: self.attestation_proof.clone(),
            tee_worker_pubkey: self.tee_worker_pubkey.clone(),
            timestamp: self.timestamp,
        }
    }
}

/// Emitted when a confidential job is submitted.
#[derive(Clone, Copy, PartialEq, Eq, Structural, Debug)]
pub struct JobSubmitted {
    pub job_id: u128,
}

/// Emitted when an attestation is recorded for a job.
#[derive(Clone, Copy, PartialEq, Eq, Structural, Debug)]
pub struct AttestationRecorded {
    pub job_id: u128,
}

/// Emitted when a job is marked processed.
#[derive(Clone, Copy, PartialEq, Eq, Structural, Debug)]
pub struct JobProcessed {
    pub job_id: u128,
}

/// The event a successful attestation-processor operation emits.
#[derive(Clone, Copy, PartialEq, Eq, Structural, Debug)]
pub enum AttestationEvent {
    Submitted(JobSubmitted),
    Recorded(AttestationRecorded),
    Processed(JobProcessed),
}

/// The confidential-job store after marking `job_id` processed; unchanged
/// when no such job exists.
pub open spec fn jobs_after_mark(jobs: Seq<ConfidentialJob>, job_id: u128) -> Seq<ConfidentialJob> {
    if 1 <= job_id <= jobs.len() {
        jobs.update(
            job_id as int - 1,
            (ConfidentialJob { processed: true, ..jobs[job_id as int - 1] }),
        )
    } else {
        jobs
    }
}

/// Marking a job processed is idempotent: a second marking leaves the store
/// exactly as the first left it (re-invocation also succeeds, since it
/// neither removes the job nor its attestation).
pub proof fn lemma_mark_processed_idempotent(jobs: Seq<ConfidentialJob>, job_id: u128)
    ensures
        jobs_after_mark(jobs_after_mark(jobs, job_id), job_id) == jobs_after_mark(jobs, job_id),
{
    if 1 <= job_id <= jobs.len() {
        assert(jobs_after_mark(jobs_after_mark(jobs, job_id), job_id) =~= jobs_after_mark(
            jobs,
            job_id,
        ));
    }
}

/// The attestation processor: confidential jobs under dense identifiers,
/// at most one attestation per job, last write winning.
pub struct PhalaJobProcessor {
    jobs: Vec<ConfidentialJob>,
    attestations: Vec<Option<JobAttestation>>,
    admin: Principal,
    events: Vec<AttestationEvent>,
}

impl View for PhalaJobProcessor {
    type V = Seq<ConfidentialJob>;

    closed spec fn view(&self) -> Seq<ConfidentialJob> {
        self.jobs@
    }
}

impl PhalaJobProcessor {
    /// The principal that constructed the component.
    pub closed spec fn spec_admin(&self) -> Principal {
        self.admin
    }

    /// Every event emitted so far, in emission order.
    pub closed spec fn spec_events(&self) -> Seq<AttestationEvent> {
        self.events@
    }

    /// The attestation slots, one per job, in job order.
    pub closed spec fn spec_attestations(&self) -> Seq<Option<JobAttestation>> {
        self.attestations@
    }

    /// A record exists for `job_id`.
    pub open spec fn has_job(&self, job_id: u128) -> bool {
        1 <= job_id <= self@.len()
    }

    /// The record stored under `job_id`.
    pub open spec fn job(&self, job_id: u128) -> ConfidentialJob
        recommends
            self.has_job(job_id),
    {
        self@[job_id as int - 1]
    }

    /// The attestation recorded for `job_id`, if any.
    pub open spec fn attestation(&self, job_id: u128) -> Option<JobAttestation> {
        if self.has_job(job_id) && 0 <= job_id as int - 1 < self.spec_attestations().len() {
            self.spec_attestations()[job_id as int - 1]
        } else {
            None
        }
    }

    /// Well-formedness: identifiers are dense, each attestation slot belongs
    /// to its job, and a job is processed only once attested.
    pub open spec fn wf(&self) -> bool {
        &&& self.spec_attestations().len() == self@.len()
        &&& forall|i: int|
            0 <= i < self@.len() ==> (#[trigger] self@[i]).job_id == i + 1
        &&& forall|i: int|
            0 <= i < self@.len() ==> ((#[trigger] self.spec_attestations()[i]) is Some
                ==> self.spec_attestations()[i].unwrap().job_id == i + 1)
        &&& forall|i: int|
            0 <= i < self@.len() ==> ((#[trigger] self@[i]).processed
                ==> self.spec_attestations()[i] is Some)
    }

    /// Identifier density: the job at position `i` carries id `i + 1`, so
    /// the ids allocated by successive submissions are exactly `1, 2, 3, ...`
    /// in order.
    pub proof fn lemma_job_ids_dense(&self)
        requires
            self.wf(),
        ensures
            forall|i: int| 0 <= i < self@.len() ==> (#[trigger] self@[i]).job_id == i + 1,
    {
    }

    /// Attestation precedence: a processed job always carries an attestation.
    pub proof fn lemma_processed_implies_attested(&self, job_id: u128)
        requires
            self.wf(),
            self.has_job(job_id),
            self.job(job_id).processed,
        ensures
            self.attestation(job_id) is Some,
    {
    }

    /// Creates an empty processor administered by `caller`.
    pub fn new(caller: Principal) -> (s: Self)
        ensures
            s.wf(),
            s@ == Seq::<ConfidentialJob>::empty(),
            s.spec_attestations() == Seq::<Option<JobAttestation>>::empty(),
            s.spec_admin() == caller,
            s.spec_events() == Seq::<AttestationEvent>::empty(),
    {
        PhalaJobProcessor {
            jobs: Vec::new(),
            attestations: Vec::new(),
            admin: caller,
            events: Vec::new(),
        }
    }

    /// Submits a confidential job; always succeeds and allocates the next
    /// identifier.
    pub fn submit_confidential_job(
        &mut self,
        caller: Principal,
        now: u64,
        encrypted_payload: String,
        public_key: String,
    ) -> (r: u128)
        requires
            old(self).wf(),
        ensures
            final(self).wf(),
            r == old(self)@.len() + 1,
            final(self)@ == old(self)@.push(
                (ConfidentialJob {
                    job_id: r,
                    owner: caller,
                    encrypted_payload: encrypted_payload,
                    public_key: public_key,
                    created_at: now,
                    processed: false,
                }),
            ),
            final(self).spec_attestations() == old(self).spec_attestations().push(
                None::<JobAttestation>,
            ),
            final(self).spec_events() == old(self).spec_events().push(
                AttestationEvent::Submitted((JobSubmitted { job_id: r })),
            ),
            final(self).spec_admin() == old(self).spec_admin(),
    {
        let job_id: u128 = (self.jobs.len() as u128) + 1;
        let job = ConfidentialJob {
            job_id,
            owner: caller,
            encrypted_payload,
            public_key,
            created_at: now,
            processed: false,
        };
        self.jobs.push(job);
        self.attestations.push(None);
        self.events.push(AttestationEvent::Submitted(JobSubmitted { job_id }));
        job_id
    }

    /// Records an attestation for a job, overwriting any previous one (last
    /// write wins, and both recordings stand in the event stream).  Succeeds
    /// exactly when the job exists.
    pub fn record_attestation(
        &mut self,
        job_id: u128,
        now: u64,
        result_hash: String,
        attestation_proof: String,
        tee_worker_pubkey: String,
    ) -> (r: bool)
        requires
            old(self).wf(),
        ensures
            final(self).wf(),
            r == old(self).has_job(job_id),
            !r ==> *final(self) == *old(self),
            r ==> final(self).spec_attestations() == old(self).spec_attestations().update(
                job_id as int - 1,
                Some(
                    (JobAttestation {
                        job_id: job_id,
                        result_hash: result_hash,
                        attestation_proof: attestation_proof,
                        tee_worker_pubkey: tee_worker_pubkey,
                        timestamp: now,
                    }),
                ),
            ),
            r ==> final(self).spec_events() == old(self).spec_events().push(
                AttestationEvent::Recorded((AttestationRecorded { job_id: job_id })),
            ),
            final(self)@ == old(self)@,
            final(self).spec_admin() == old(self).spec_admin(),
    {
        if job_id >= 1 && job_id <= self.jobs.len() as u128 {
            let idx: usize = (job_id - 1) as usize;
            let att = JobAttestation {
                job_id,
                result_hash,
                attestation_proof,
                tee_worker_pubkey,
                timestamp: now,
            };
            self.attestations[idx] = Some(att);
            self.events.push(AttestationEvent::Recorded(AttestationRecorded { job_id }));
            true
        } else {
            false
        }
    }

    /// Returns the job under `job_id`, or `None` when no such job exists.
    pub fn get_job(&self, job_id: u128) -> (r: Option<ConfidentialJob>)
        ensures
            r == if self.has_job(job_id) {
                Some(self.job(job_id))
            } else {
                None::<ConfidentialJob>
            },
    {
        if job_id >= 1 && job_id <= self.jobs.len() as u128 {
            let idx: usize = (job_id - 1) as usize;
            Some(self.jobs[idx].clone())
        } else {
            None
        }
    }

    /// Returns the attestation recorded for `job_id`, if any.
    pub fn get_attestation(&self, job_id: u128) -> (r: Option<JobAttestation>)
        requires
            self.wf(),
        ensures
            r == self.attestation(job_id),
    {
        if job_id >= 1 && job_id <= self.jobs.len() as u128 {
            let idx: usize = (job_id - 1) as usize;
            match &self.attestations[idx] {
                Some(att) => Some(att.clone()),
                None => None,
            }
        } else {
            None
        }
    }

    /// The number of jobs submitted so far, equal to the last allocated id.
    pub fn get_job_counter(&self) -> (r: u128)
        ensures
            r == self@.len(),
    {
        self.jobs.len() as u128
    }

    /// Whether an attestation has been recorded for `job_id`.
    pub fn verify_attestation(&self, job_id: u128) -> (r: bool)
        requires
            self.wf(),
        ensures
            r == (self.attestation(job_id) is Some),
    {
        if job_id >= 1 && job_id <= self.jobs.len() as u128 {
            let idx: usize = (job_id - 1) as usize;
            self.attestations[idx].is_some()
        } else {
            false
        }
    }

    /// Marks a job processed.  Succeeds exactly when the job exists and an
    /// attestation has been recorded for it, so success witnesses that the
    /// attestation preceded the call.  Idempotent on an already processed
    /// job: the call succeeds again and the store is unchanged.
    pub fn mark_job_processed(&mut self, job_id: u128) -> (r: bool)
        requires
            old(self).wf(),
        ensures
            final(self).wf(),
            r == (old(self).has_job(job_id) && old(self).attestation(job_id) is Some),
            !r ==> *final(self) == *old(self),
            r ==> final(self)@ == jobs_after_mark(old(self)@, job_id),
            r ==> final(self).spec_events() == old(self).spec_events().push(
                AttestationEvent::Processed((JobProcessed { job_id: job_id })),
            ),
            final(self).spec_attestations() == old(self).spec_attestations(),
            final(self).spec_admin() == old(self).spec_admin(),
    {
        if job_id >= 1 && job_id <= self.jobs.len() as u128 {
            let idx: usize = (job_id - 1) as usize;
            if self.attestations[idx].is_some() {
                let job = &mut self.jobs[idx];
                job.processed = true;
                self.events.push(AttestationEvent::Processed(JobProcessed { job_id }));
                true
            } else {
                false
            }
        } else {
            false
        }
    }

    /// Every event emitted so far, in emission order.
    pub fn get_events(&self) -> (r: &Vec<AttestationEvent>)
        ensures
            r@ == self.spec_events(),
    {
        &self.events
    }
}

} // verus!
