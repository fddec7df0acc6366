use vstd::prelude::*;
use crate::principal::Principal;

verus! {

/// Lifecycle state of a job.  `Completed` and `Cancelled` are terminal.
#[derive(Clone, Copy, PartialEq, Eq, Structural, Debug)]
pub enum JobStatus {
    Registered,
    Assigned,
    InProgress,
    Completed,
    Cancelled,
}

impl Default for JobStatus {
    fn default() -> (r: Self)
        ensures
            r == JobStatus::Registered,
    {
        JobStatus::Registered
    }
}

/// One compute job: owned by its submitter, optionally assigned to a
/// provider, funded by the payment attached at submission.
#[derive(Debug, PartialEq, Eq)]
pub struct Job {
    pub id: u128,
    pub owner: Principal,
    pub model_ref: String,
    pub data_ref: String,
    pub budget: u128,
    pub status: JobStatus,
    pub assigned_provider: Option<Principal>,
    pub deadline: u32,
    pub privacy_required: bool,
}

impl Clone for Job {
    fn clone(&self) -> (r: Self)
        ensures
            r == *self,
    {
        Job {
            id: self.id,
            owner: self.owner,
            model_ref: self.model_ref.clone(),
            data_ref: self.data_ref.clone(),
            budget: self.budget,
            status: self.status,
            assigned_provider: self.assigned_provider,
            deadline: self.deadline,
            privacy_required: self.privacy_required,
        }
    }
}

impl Job {
    /// A provider is recorded exactly in the states that follow assignment.
    pub open spec fn provider_coherent(self) -> bool {
        self.assigned_provider is Some <==> (self.status == JobStatus::Assigned
            || self.status == JobStatus::InProgress || self.status == JobStatus::Completed)
    }
}

/// The transitions of the job state machine: assignment by the owner,
/// progress and completion by the provider, cancellation by the owner from
/// any non-terminal state.
pub open spec fn job_step_allowed(pre: JobStatus, post: JobStatus) -> bool {
    ||| (pre == JobStatus::Registered && post == JobStatus::Assigned)
    ||| (pre == JobStatus::Assigned && post == JobStatus::InProgress)
    ||| (pre == JobStatus::InProgress && post == JobStatus::Completed)
    ||| (pre == JobStatus::Registered && post == JobStatus::Cancelled)
    ||| (pre == JobStatus::Assigned && post == JobStatus::Cancelled)
    ||| (pre == JobStatus::InProgress && post == JobStatus::Cancelled)
}

/// Why a submission was rejected.
#[derive(Clone, Copy, PartialEq, Eq, Structural, Debug)]
pub enum SubmitJobError {
    /// The attached payment is below the configured minimum budget.
    InsufficientPayment,
    /// The deadline does not lie beyond the current block height.
    InvalidDeadline,
}

/// Emitted when a job is submitted.
#[derive(Clone, Copy, PartialEq, Eq, Structural, Debug)]
pub struct JobSubmitted {
    pub job_id: u128,
    pub owner: Principal,
    pub budget: u128,
}

/// Emitted when a provider is assigned to a job.
#[derive(Clone, Copy, PartialEq, Eq, Structural, Debug)]
pub struct JobAssigned {
    pub job_id: u128,
    pub provider: Principal,
}

/// Emitted when a job's status changes without a more specific event.
#[derive(Clone, Copy, PartialEq, Eq, Structural, Debug)]
pub struct JobStatusChanged {
    pub job_id: u128,
    pub new_status: JobStatus,
}

/// Emitted when the assigned provider completes a job.
#[derive(PartialEq, Eq, Debug)]
pub struct JobCompleted {
    pub job_id: u128,
    pub provider: Principal,
    pub result_hash: String,
}

/// Emitted when the owner cancels a job.
#[derive(Clone, Copy, PartialEq, Eq, Structural, Debug)]
pub struct JobCancelled {
    pub job_id: u128,
}

/// The event a successful job-ledger operation emits.
#[derive(PartialEq, Eq, Debug)]
pub enum JobEvent {
    Submitted(JobSubmitted),
    Assigned(JobAssigned),
    StatusChanged(JobStatusChanged),
    Completed(JobCompleted),
    Cancelled(JobCancelled),
}

/// The job ledger: jobs under dense identifiers `1..=N`, a configured
/// minimum budget, and the ledger owner who may change that minimum.
pub struct AiJobQueue {
    jobs: Vec<Job>,
    min_budget: u128,
    owner: Principal,
    events: Vec<JobEvent>,
}

impl View for AiJobQueue {
    type V = Seq<Job>;

    closed spec fn view(&self) -> Seq<Job> {
        self.jobs@
    }
}

impl AiJobQueue {
    /// The configured minimum budget a submission must attach.
    pub closed spec fn spec_min_budget(&self) -> u128 {
        self.min_budget
    }

    /// The principal that constructed the ledger.
    pub closed spec fn spec_owner(&self) -> Principal {
        self.owner
    }

    /// Every event emitted so far, in emission order.
    pub closed spec fn spec_events(&self) -> Seq<JobEvent> {
        self.events@
    }

    /// A record exists for `job_id`.
    pub open spec fn has_job(&self, job_id: u128) -> bool {
        1 <= job_id <= self@.len()
    }

    /// The record stored under `job_id`.
    pub open spec fn job(&self, job_id: u128) -> Job
        recommends
            self.has_job(job_id),
    {
        self@[job_id as int - 1]
    }

    /// Well-formedness: identifiers are dense and each record carries a
    /// provider exactly in the states that follow assignment.
    pub open spec fn wf(&self) -> bool {
        forall|i: int|
            0 <= i < self@.len() ==> (#[trigger] self@[i]).id == i + 1 && self@[i].provider_coherent()
    }

    /// Identifier density: the record at position `i` carries id `i + 1`,
    /// so the ids allocated by successive submissions are exactly
    /// `1, 2, 3, ...` in order.
    pub proof fn lemma_job_ids_dense(&self)
        requires
            self.wf(),
        ensures
            forall|i: int| 0 <= i < self@.len() ==> (#[trigger] self@[i]).id == i + 1,
    {
    }

    /// Creates an empty ledger owned by `caller`.
    pub fn new(min_budget: u128, caller: Principal) -> (s: Self)
        ensures
            s.wf(),
            s@ == Seq::<Job>::empty(),
            s.spec_min_budget() == min_budget,
            s.spec_owner() == caller,
            s.spec_events() == Seq::<JobEvent>::empty(),
    {
        AiJobQueue { jobs: Vec::new(), min_budget, owner: caller, events: Vec::new() }
    }

    /// Submits a job funded by the attached payment.  Rejects a payment
    /// below the minimum budget and a deadline not beyond the current
    /// height; otherwise allocates the next identifier.
    pub fn submit_job(
        &mut self,
        caller: Principal,
        attached: u128,
        height: u32,
        model_ref: String,
        data_ref: String,
        deadline: u32,
        privacy_required: bool,
    ) -> (r: Result<u128, SubmitJobError>)
        requires
            old(self).wf(),
        ensures
            final(self).wf(),
            attached < old(self).spec_min_budget() ==> r == Err::<u128,
                SubmitJobError>(SubmitJobError::InsufficientPayment) && *final(self) == *old(self),
            attached >= old(self).spec_min_budget() && deadline <= height ==> r == Err::<u128,
                SubmitJobError>(SubmitJobError::InvalidDeadline) && *final(self) == *old(self),
            attached >= old(self).spec_min_budget() && deadline > height ==> {
                let job_id = (old(self)@.len() + 1) as u128;
                &&& r == Ok::<u128, SubmitJobError>(job_id)
                &&& final(self)@ == old(self)@.push(
                    (Job {
                        id: job_id,
                        owner: caller,
                        model_ref: model_ref,
                        data_ref: data_ref,
                        budget: attached,
                        status: JobStatus::Registered,
                        assigned_provider: None,
                        deadline: deadline,
                        privacy_required: privacy_required,
                    }),
                )
                &&& final(self).spec_events() == old(self).spec_events().push(
                    JobEvent::Submitted(
                        (JobSubmitted { job_id: job_id, owner: caller, budget: attached }),
                    ),
                )
            },
            final(self).spec_min_budget() == old(self).spec_min_budget(),
            final(self).spec_owner() == old(self).spec_owner(),
    {
        if attached < self.min_budget {
            return Err(SubmitJobError::InsufficientPayment);
        }
        if deadline <= height {
            return Err(SubmitJobError::InvalidDeadline);
        }
        let job_id: u128 = (self.jobs.len() as u128) + 1;
        let job = Job {
            id: job_id,
            owner: caller,
            model_ref,
            data_ref,
            budget: attached,
            status: JobStatus::Registered,
            assigned_provider: None,
            deadline,
            privacy_required,
        };
        self.jobs.push(job);
        self.events.push(
            JobEvent::Submitted(JobSubmitted { job_id, owner: caller, budget: attached }),
        );
        Ok(job_id)
    }

    /// Returns the record under `job_id`, or `None` when no such job exists.
    pub fn get_job(&self, job_id: u128) -> (r: Option<Job>)
        ensures
            r == if self.has_job(job_id) {
                Some(self.job(job_id))
            } else {
                None::<Job>
            },
    {
        if job_id >= 1 && job_id <= self.jobs.len() as u128 {
            let idx: usize = (job_id - 1) as usize;
            Some(self.jobs[idx].clone())
        } else {
            None
        }
    }

    /// Assigns a provider.  Succeeds exactly when the job exists, the caller
    /// owns it, and it is still `Registered`; a wrong caller or state leaves
    /// the ledger unchanged.
    pub fn assign_provider(&mut self, caller: Principal, job_id: u128, provider: Principal) -> (r:
        bool)
        requires
            old(self).wf(),
        ensures
            final(self).wf(),
            r == (old(self).has_job(job_id) && caller == old(self).job(job_id).owner && old(
                self,
            ).job(job_id).status == JobStatus::Registered),
            !r ==> *final(self) == *old(self),
            r ==> {
                let j1 = (Job {
                    status: JobStatus::Assigned,
                    assigned_provider: Some(provider),
                    ..old(self).job(job_id)
                });
                &&& final(self)@ == old(self)@.update(job_id as int - 1, j1)
                &&& final(self).spec_events() == old(self).spec_events().push(
                    JobEvent::Assigned((JobAssigned { job_id: job_id, provider: provider })),
                )
            },
            r ==> job_step_allowed(old(self).job(job_id).status, final(self).job(job_id).status),
            final(self).spec_min_budget() == old(self).spec_min_budget(),
            final(self).spec_owner() == old(self).spec_owner(),
    {
        if job_id >= 1 && job_id <= self.jobs.len() as u128 {
            let idx: usize = (job_id - 1) as usize;
            if caller == self.jobs[idx].owner && self.jobs[idx].status == JobStatus::Registered {
                let job = &mut self.jobs[idx];
                job.assigned_provider = Some(provider);
                job.status = JobStatus::Assigned;
                self.events.push(JobEvent::Assigned(JobAssigned { job_id, provider }));
                true
            } else {
                false
            }
        } else {
            false
        }
    }

    /// Marks an assigned job as running.  Succeeds exactly when the job
    /// exists, the caller is its assigned provider, and it is `Assigned`.
    pub fn mark_in_progress(&mut self, caller: Principal, job_id: u128) -> (r: bool)
        requires
            old(self).wf(),
        ensures
            final(self).wf(),
            r == (old(self).has_job(job_id) && old(self).job(job_id).assigned_provider == Some(
                caller,
            ) && old(self).job(job_id).status == JobStatus::Assigned),
            !r ==> *final(self) == *old(self),
            r ==> {
                let j1 = (Job { status: JobStatus::InProgress, ..old(self).job(job_id) });
                &&& final(self)@ == old(self)@.update(job_id as int - 1, j1)
                &&& final(self).spec_events() == old(self).spec_events().push(
                    JobEvent::StatusChanged(
                        (JobStatusChanged { job_id: job_id, new_status: JobStatus::InProgress }),
                    ),
                )
            },
            r ==> job_step_allowed(old(self).job(job_id).status, final(self).job(job_id).status),
            final(self).spec_min_budget() == old(self).spec_min_budget(),
            final(self).spec_owner() == old(self).spec_owner(),
    {
        if job_id >= 1 && job_id <= self.jobs.len() as u128 {
            let idx: usize = (job_id - 1) as usize;
            if self.jobs[idx].assigned_provider == Some(caller) && self.jobs[idx].status
                == JobStatus::Assigned {
                let job = &mut self.jobs[idx];
                job.status = JobStatus::InProgress;
                self.events.push(
                    JobEvent::StatusChanged(
                        JobStatusChanged { job_id, new_status: JobStatus::InProgress },
                    ),
                );
                true
            } else {
                false
            }
        } else {
            false
        }
    }

    /// Completes a running job.  Succeeds exactly when the job exists, the
    /// caller is its assigned provider, and it is `InProgress`; the result
    /// hash is recorded in the event stream.
    pub fn mark_completed(&mut self, caller: Principal, job_id: u128, result_hash: String) -> (r:
        bool)
        requires
            old(self).wf(),
        ensures
            final(self).wf(),
            r == (old(self).has_job(job_id) && old(self).job(job_id).assigned_provider == Some(
                caller,
            ) && old(self).job(job_id).status == JobStatus::InProgress),
            !r ==> *final(self) == *old(self),
            r ==> {
                let j1 = (Job { status: JobStatus::Completed, ..old(self).job(job_id) });
                &&& final(self)@ == old(self)@.update(job_id as int - 1, j1)
                &&& final(self).spec_events() == old(self).spec_events().push(
                    JobEvent::Completed(
                        (JobCompleted {
                            job_id: job_id,
                            provider: caller,
                            result_hash: result_hash,
                        }),
                    ),
                )
            },
            r ==> job_step_allowed(old(self).job(job_id).status, final(self).job(job_id).status),
            final(self).spec_min_budget() == old(self).spec_min_budget(),
            final(self).spec_owner() == old(self).spec_owner(),
    {
        if job_id >= 1 && job_id <= self.jobs.len() as u128 {
            let idx: usize = (job_id - 1) as usize;
            if self.jobs[idx].assigned_provider == Some(caller) && self.jobs[idx].status
                == JobStatus::InProgress {
                let job = &mut self.jobs[idx];
                job.status = JobStatus::Completed;
                self.events.push(
                    JobEvent::Completed(JobCompleted { job_id, provider: caller, result_hash }),
                );
                true
            } else {
                false
            }
        } else {
            false
        }
    }

    /// Cancels a job.  Succeeds exactly when the job exists, the caller owns
    /// it, and it is not `Completed`; cancellation releases any recorded
    /// provider.  Cancelling an already cancelled job succeeds and leaves
    /// its status `Cancelled`.
    pub fn cancel_job(&mut self, caller: Principal, job_id: u128) -> (r: bool)
        requires
            old(self).wf(),
        ensures
            final(self).wf(),
            r == (old(self).has_job(job_id) && caller == old(self).job(job_id).owner && old(
                self,
            ).job(job_id).status != JobStatus::Completed),
            !r ==> *final(self) == *old(self),
            r ==> {
                let j1 = (Job {
                    status: JobStatus::Cancelled,
                    assigned_provider: None,
                    ..old(self).job(job_id)
                });
                &&& final(self)@ == old(self)@.update(job_id as int - 1, j1)
                &&& final(self).spec_events() == old(self).spec_events().push(
                    JobEvent::Cancelled((JobCancelled { job_id: job_id })),
                )
            },
            r ==> old(self).job(job_id).status == final(self).job(job_id).status || job_step_allowed(
                old(self).job(job_id).status,
                final(self).job(job_id).status,
            ),
            final(self).spec_min_budget() == old(self).spec_min_budget(),
            final(self).spec_owner() == old(self).spec_owner(),
    {
        if job_id >= 1 && job_id <= self.jobs.len() as u128 {
            let idx: usize = (job_id - 1) as usize;
            if caller == self.jobs[idx].owner && !(self.jobs[idx].status == JobStatus::Completed) {
                let job = &mut self.jobs[idx];
                job.status = JobStatus::Cancelled;
                job.assigned_provider = None;
                self.events.push(JobEvent::Cancelled(JobCancelled { job_id }));
                true
            } else {
                false
            }
        } else {
            false
        }
    }

    /// The number of jobs submitted so far, equal to the last allocated id.
    pub fn get_job_counter(&self) -> (r: u128)
        ensures
            r == self@.len(),
    {
        self.jobs.len() as u128
    }

    /// The configured minimum budget.
    pub fn get_min_budget(&self) -> (r: u128)
        ensures
            r == self.spec_min_budget(),
    {
        self.min_budget
    }

    /// Changes the minimum budget.  Succeeds exactly for the ledger owner;
    /// any other caller leaves the ledger unchanged.
    pub fn set_min_budget(&mut self, caller: Principal, new_min_budget: u128) -> (r: bool)
        requires
            old(self).wf(),
        ensures
            final(self).wf(),
            r == (caller == old(self).spec_owner()),
            !r ==> *final(self) == *old(self),
            r ==> final(self).spec_min_budget() == new_min_budget,
            final(self)@ == old(self)@,
            final(self).spec_events() == old(self).spec_events(),
            final(self).spec_owner() == old(self).spec_owner(),
    {
        if caller == self.owner {
            self.min_budget = new_min_budget;
            true
        } else {
            false
        }
    }

    /// Every event emitted so far, in emission order.
    pub fn get_events(&self) -> (r: &Vec<JobEvent>)
        ensures
            r@ == self.spec_events(),
    {
        &self.events
    }
}

} // verus!
