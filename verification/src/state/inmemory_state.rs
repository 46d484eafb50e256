use std::collections::HashMap;
use vstd::prelude::*;
use crate::address::WorkerAddr;
use crate::error::Error;
use crate::job_id::{is_random_uuid, JobId};
use crate::message::CoordinatorMessage;
use crate::parameters::{ParameterMap, ParameterModel};
use crate::state::job::{result_set, round_started, weights_requested, Dispatch, Job, JobModel};
use crate::state::worker::{snapshot, Worker};

verus! {

broadcast use vstd::std_specs::hash::group_hash_axioms;

/// What the coordinator's state is: the registered workers, in the order of
/// their registration, and the jobs by identifier.
#[verifier::ext_equal]
pub struct StateModel {
    pub workers: Seq<Worker>,
    pub jobs: Map<JobId, JobModel>,
}

impl StateModel {
    /// The state of a coordinator that has just started.
    pub open spec fn empty() -> StateModel {
        StateModel { workers: Seq::empty(), jobs: Map::empty() }
    }

    /// The state once `worker` has registered.
    pub open spec fn register(self, worker: Worker) -> StateModel {
        StateModel { workers: self.workers.push(worker), ..self }
    }

    /// The state once a job was created under `id`: the job holds the workers
    /// registered so far and awaits nothing.
    pub open spec fn create_job(self, id: JobId) -> StateModel {
        StateModel { jobs: self.jobs.insert(id, JobModel::fresh(id, self.workers)), ..self }
    }

    /// The state with `job` in place of the job under `id`.
    pub open spec fn with_job(self, id: JobId, job: JobModel) -> StateModel {
        StateModel { jobs: self.jobs.insert(id, job), ..self }
    }
}

/// What creating a job under `job_id` does: where the table holds a job
/// under it, that job stays, nothing changes and the clash is reported; else
/// the new job is filed under it, over the workers registered so far.
pub open spec fn job_created(
    pre: StateModel,
    job_id: JobId,
    post: StateModel,
    r: Result<JobId, Error>,
) -> bool {
    if pre.jobs.dom().contains(job_id) {
        post == pre && r == Err::<JobId, Error>(Error::JobExists { job_id })
    } else {
        post == pre.create_job(job_id) && r == Ok::<JobId, Error>(job_id)
    }
}

/// What asking for the initial weights of the job under `job_id` does: an
/// unknown job is reported and nothing changes; else the job is asked, and
/// nothing but that job changes.
pub open spec fn weights_fetched(
    pre: StateModel,
    job_id: JobId,
    post: StateModel,
    r: Result<Dispatch, Error>,
) -> bool {
    if pre.jobs.dom().contains(job_id) {
        &&& post.jobs.dom().contains(job_id)
        &&& post == pre.with_job(job_id, post.jobs[job_id])
        &&& weights_requested(pre.jobs[job_id], post.jobs[job_id], r)
    } else {
        post == pre && r == Err::<Dispatch, Error>(Error::JobNotFound { job_id })
    }
}

/// What starting a round of the job under `job_id` does: an unknown job is
/// reported and nothing changes; else the job starts the round, and nothing
/// but that job changes.
pub open spec fn round_dispatched(
    pre: StateModel,
    job_id: JobId,
    weights: ParameterModel,
    post: StateModel,
    r: Result<Vec<Dispatch>, Error>,
) -> bool {
    if pre.jobs.dom().contains(job_id) {
        &&& post.jobs.dom().contains(job_id)
        &&& post == pre.with_job(job_id, post.jobs[job_id])
        &&& round_started(pre.jobs[job_id], weights, post.jobs[job_id], r)
    } else {
        post == pre && r == Err::<Vec<Dispatch>, Error>(Error::JobNotFound { job_id })
    }
}

/// What a reply of `addr` for the job under `job_id` does: an unknown job is
/// reported and nothing changes; else the job routes the reply, and nothing
/// but that job changes.
pub open spec fn reply_delivered(
    pre: StateModel,
    job_id: JobId,
    addr: WorkerAddr,
    post: StateModel,
    r: Result<(), Error>,
) -> bool {
    if pre.jobs.dom().contains(job_id) {
        &&& post.jobs.dom().contains(job_id)
        &&& post == pre.with_job(job_id, post.jobs[job_id])
        &&& result_set(pre.jobs[job_id], addr, post.jobs[job_id], r)
    } else {
        post == pre && r == Err::<(), Error>(Error::JobNotFound { job_id })
    }
}

/// The coordinator's state in memory: the connected workers and the jobs.
/// Nothing is kept across restarts.
pub struct InMemoryState {
    workers: Vec<Worker>,
    jobs: HashMap<u128, Job>,
}

spec fn jobs_model(jobs: Map<u128, Job>) -> Map<JobId, JobModel> {
    Map::new(|id: JobId| jobs.dom().contains(id.0), |id: JobId| jobs[id.0]@)
}

spec fn filed_by_id(jobs: Map<u128, Job>) -> bool {
    forall|key: u128| jobs.dom().contains(key) ==> (#[trigger] jobs[key])@.id == JobId(key)
}

impl View for InMemoryState {
    type V = StateModel;

    closed spec fn view(&self) -> StateModel {
        StateModel { workers: self.workers@, jobs: jobs_model(self.jobs@) }
    }
}

/// Filing a job under its identifier puts its model under that identifier.
proof fn lemma_filed(before: Map<u128, Job>, job: Job)
    requires
        filed_by_id(before),
    ensures
        filed_by_id(before.insert(job@.id.0, job)),
        jobs_model(before.insert(job@.id.0, job)) == jobs_model(before).insert(job@.id, job@),
{
    let after = before.insert(job@.id.0, job);
    assert forall|key: u128| after.dom().contains(key) implies (#[trigger] after[key])@.id == JobId(
        key,
    ) by {
        if key != job@.id.0 {
            assert(before[key]@.id == JobId(key));
        }
    }
    assert(jobs_model(after) =~= jobs_model(before).insert(job@.id, job@));
}

impl InMemoryState {
    /// What holds of every state: each job is filed under its own
    /// identifier.
    #[verifier::type_invariant]
    pub closed spec fn well_formed(self) -> bool {
        filed_by_id(self.jobs@)
    }

    /// The state of a coordinator that has just started: no worker, no job.
    pub fn new() -> (state: InMemoryState)
        ensures
            state@ == StateModel::empty(),
    {
        let state = InMemoryState { workers: Vec::new(), jobs: HashMap::new() };
        assert(state@ =~= StateModel::empty());
        state
    }

    /// Registers a worker at `addr` that listens on `sender`. This always
    /// succeeds.
    pub fn add_worker(
        &mut self,
        addr: WorkerAddr,
        sender: tokio::sync::mpsc::Sender<CoordinatorMessage>,
    ) -> (r: Result<(), Error>)
        ensures
            r == Ok::<(), Error>(()),
            final(self)@ == old(self)@.register(Worker::of(addr, sender)),
    {
        proof {
            use_type_invariant(&*self);
        }
        let mut workers: Vec<Worker> = Vec::new();
        std::mem::swap(&mut workers, &mut self.workers);
        workers.push(Worker::new(addr, sender));
        self.workers = workers;
        Ok(())
    }

    /// Creates a job over the workers registered so far, under a fresh
    /// random identifier, and hands out the identifier. It fails, and changes
    /// nothing, where the identifier drawn is that of a job in the table.
    pub fn add_job(&mut self) -> (r: Result<JobId, Error>)
        ensures
            exists|job_id: JobId|
                is_random_uuid(job_id.0) && #[trigger] job_created(
                    old(self)@,
                    job_id,
                    final(self)@,
                    r,
                ),
    {
        let job_id = JobId::generate();
        self.add_job_as(job_id)
    }

    /// Creates a job over the workers registered so far under the identifier
    /// `job_id`, unless the table holds a job under it.
    pub fn add_job_as(&mut self, job_id: JobId) -> (r: Result<JobId, Error>)
        ensures
            job_created(old(self)@, job_id, final(self)@, r),
    {
        if self.jobs.contains_key(&job_id.0) {
            return Err(Error::JobExists { job_id });
        }
        let job = Job::with_id(job_id, snapshot(&self.workers));
        self.put_job(job);
        Ok(job_id)
    }

    /// Takes the job under `job_id` out of the table, if there is one.
    fn take_job(&mut self, job_id: JobId) -> (r: Option<Job>)
        ensures
            final(self)@.workers == old(self)@.workers,
            final(self)@.jobs == old(self)@.jobs.remove(job_id),
            r is Some <==> old(self)@.jobs.dom().contains(job_id),
            r is Some ==> r->0@ == old(self)@.jobs[job_id] && r->0@.id == job_id,
    {
        proof {
            use_type_invariant(&*self);
        }
        let mut jobs: HashMap<u128, Job> = HashMap::new();
        std::mem::swap(&mut jobs, &mut self.jobs);
        let ghost before = jobs@;
        let job = jobs.remove(&job_id.0);
        proof {
            assert(jobs_model(jobs@) =~= jobs_model(before).remove(job_id));
            if job is Some {
                assert(before[job_id.0]@.id == JobId(job_id.0));
            }
        }
        self.jobs = jobs;
        job
    }

    /// Files a job under its identifier, in place of a job that was filed
    /// under it.
    fn put_job(&mut self, job: Job)
        ensures
            final(self)@ == old(self)@.with_job(job@.id, job@),
    {
        proof {
            use_type_invariant(&*self);
        }
        let mut jobs: HashMap<u128, Job> = HashMap::new();
        std::mem::swap(&mut jobs, &mut self.jobs);
        proof {
            lemma_filed(jobs@, job);
        }
        jobs.insert(job.id().0, job);
        self.jobs = jobs;
    }

    /// Prepares the request for the initial weights of the job under
    /// `job_id`.
    pub fn get_weights(&mut self, job_id: JobId) -> (r: Result<Dispatch, Error>)
        ensures
            weights_fetched(old(self)@, job_id, final(self)@, r),
    {
        let ghost pre = self@;
        match self.take_job(job_id) {
            Some(job) => {
                let mut job = job;
                let r = job.get_weights();
                self.put_job(job);
                assert(self@.jobs =~= pre.jobs.insert(job_id, self@.jobs[job_id]));
                r
            },
            None => {
                assert(self@.jobs =~= pre.jobs);
                Err(Error::JobNotFound { job_id })
            },
        }
    }

    /// Prepares one round of the job under `job_id`: a request with `weights`
    /// for every worker of the job.
    pub fn fit_round(&mut self, job_id: JobId, weights: &ParameterMap) -> (r: Result<
        Vec<Dispatch>,
        Error,
    >)
        ensures
            round_dispatched(old(self)@, job_id, weights@, final(self)@, r),
    {
        let ghost pre = self@;
        match self.take_job(job_id) {
            Some(job) => {
                let mut job = job;
                let r = job.fit_round(weights);
                self.put_job(job);
                assert(self@.jobs =~= pre.jobs.insert(job_id, self@.jobs[job_id]));
                r
            },
            None => {
                assert(self@.jobs =~= pre.jobs);
                Err(Error::JobNotFound { job_id })
            },
        }
    }

    /// Routes the reply of the worker at `addr` to the job under `job_id`.
    pub fn set_fit_result(&mut self, job_id: JobId, addr: WorkerAddr, weights: ParameterMap) -> (r:
        Result<(), Error>)
        ensures
            reply_delivered(old(self)@, job_id, addr, final(self)@, r),
    {
        let ghost pre = self@;
        match self.take_job(job_id) {
            Some(job) => {
                let mut job = job;
                let r = job.set_result(addr, weights);
                self.put_job(job);
                assert(self@.jobs =~= pre.jobs.insert(job_id, self@.jobs[job_id]));
                r
            },
            None => {
                assert(self@.jobs =~= pre.jobs);
                Err(Error::JobNotFound { job_id })
            },
        }
    }

    /// The registered workers, in the order of their registration.
    pub fn workers(&self) -> (workers: &Vec<Worker>)
        ensures
            workers@ == self@.workers,
    {
        &self.workers
    }

    /// The job under `job_id`, if there is one.
    pub fn job(&self, job_id: JobId) -> (r: Option<&Job>)
        ensures
            r is Some <==> self@.jobs.dom().contains(job_id),
            r is Some ==> r->0@ == self@.jobs[job_id],
    {
        self.jobs.get(&job_id.0)
    }
}

} // verus!
