//! The state that the coordinator's single state owner holds, and the
//! commands that it serves one at a time.

pub mod inmemory_state;
pub mod job;
pub mod worker;

use vstd::prelude::*;
use crate::address::WorkerAddr;
use crate::error::Error;
use crate::job_id::{is_random_uuid, JobId};
use crate::message::CoordinatorMessage;
use crate::parameters::ParameterMap;
use crate::state::inmemory_state::{
    job_created,
    reply_delivered,
    round_dispatched,
    weights_fetched,
    InMemoryState,
    StateModel,
};
use crate::state::job::Dispatch;
use crate::state::worker::Worker;

verus! {

/// What the state owner can be asked to do.
pub enum Command {
    /// Register the worker at `addr`, which listens on `sender`.
    AddWorker { addr: WorkerAddr, sender: tokio::sync::mpsc::Sender<CoordinatorMessage> },
    /// Create a job over the workers registered so far.
    AddJob,
    /// Ask the first worker of a job for its initial weights.
    GetWeights { job_id: JobId },
    /// Start one round of a job from `weights`.
    FitRound { job_id: JobId, weights: ParameterMap },
    /// Route the reply of the worker at `addr` to a job.
    SetFitResult { job_id: JobId, addr: WorkerAddr, weights: ParameterMap },
}

/// What the state owner answers, for each kind of command. A request that is
/// ready to leave is part of the answer: sending it and awaiting the reply is
/// left to the caller, so that the next command need not wait for it.
pub enum Outcome {
    AddWorker(Result<(), Error>),
    AddJob(Result<JobId, Error>),
    GetWeights(Result<Dispatch, Error>),
    FitRound(Result<Vec<Dispatch>, Error>),
    SetFitResult(Result<(), Error>),
}

/// What serving `command` in the state `pre` does: the state `post` that it
/// leaves and the answer `outcome` that it gives.
pub open spec fn served(pre: StateModel, command: Command, post: StateModel, outcome: Outcome) -> bool {
    match command {
        Command::AddWorker { addr, sender } => outcome == Outcome::AddWorker(Ok(())) && post
            == pre.register(Worker::of(addr, sender)),
        Command::AddJob => outcome matches Outcome::AddJob(r) && exists|job_id: JobId|
            is_random_uuid(job_id.0) && #[trigger] job_created(pre, job_id, post, r),
        Command::GetWeights { job_id } => outcome matches Outcome::GetWeights(r) && weights_fetched(
            pre,
            job_id,
            post,
            r,
        ),
        Command::FitRound { job_id, weights } => outcome matches Outcome::FitRound(r)
            && round_dispatched(pre, job_id, weights@, post, r),
        Command::SetFitResult { job_id, addr, .. } => outcome matches Outcome::SetFitResult(r)
            && reply_delivered(pre, job_id, addr, post, r),
    }
}

/// Serves one command: changes the state as the command asks and gives the
/// answer for its caller. No command makes this fail; what goes wrong is part
/// of the answer.
pub fn handle(state: &mut InMemoryState, command: Command) -> (outcome: Outcome)
    ensures
        served(old(state)@, command, final(state)@, outcome),
{
    match command {
        Command::AddWorker { addr, sender } => Outcome::AddWorker(state.add_worker(addr, sender)),
        Command::AddJob => Outcome::AddJob(state.add_job()),
        Command::GetWeights { job_id } => Outcome::GetWeights(state.get_weights(job_id)),
        Command::FitRound { job_id, weights } => Outcome::FitRound(state.fit_round(job_id, &weights)),
        Command::SetFitResult { job_id, addr, weights } => Outcome::SetFitResult(
            state.set_fit_result(job_id, addr, weights),
        ),
    }
}

/// The state after `workers` have registered, one after the other.
pub open spec fn register_all(state: StateModel, workers: Seq<Worker>) -> StateModel
    decreases workers.len(),
{
    if workers.len() == 0 {
        state
    } else {
        register_all(state, workers.drop_last()).register(workers.last())
    }
}

/// Registering workers appends them to the registry and leaves every job as
/// it is.
pub proof fn lemma_register_all(state: StateModel, workers: Seq<Worker>)
    ensures
        register_all(state, workers).workers == state.workers + workers,
        register_all(state, workers).jobs == state.jobs,
    decreases workers.len(),
{
    if workers.len() == 0 {
        assert(state.workers + workers =~= state.workers);
    } else {
        lemma_register_all(state, workers.drop_last());
        assert(state.workers + workers =~= (state.workers + workers.drop_last()).push(
            workers.last(),
        ));
    }
}

/// A job holds exactly the workers that had registered when it was created,
/// each with its identity and its channel, in the order of their
/// registration: the workers `first` register with a coordinator that has
/// just started, a job is created under `id`, and the workers `later`
/// register. Then the job's workers are `first`, and the registry holds
/// `first` followed by `later`.
pub proof fn lemma_job_holds_earlier_workers(first: Seq<Worker>, id: JobId, later: Seq<Worker>)
    ensures
        ({
            let created = register_all(StateModel::empty(), first).create_job(id);
            let end = register_all(created, later);
            &&& end.jobs.dom().contains(id)
            &&& end.jobs[id].workers == first
            &&& end.jobs[id].pending() == Set::<WorkerAddr>::empty()
            &&& end.workers == first + later
        }),
{
    let start = StateModel::empty();
    lemma_register_all(start, first);
    assert(start.workers + first =~= first);
    let created = register_all(start, first).create_job(id);
    lemma_register_all(created, later);
}

/// No command changes the workers of a job that exists, nor puts another job
/// in its place.
pub proof fn lemma_workers_frozen(
    pre: StateModel,
    command: Command,
    post: StateModel,
    outcome: Outcome,
    id: JobId,
)
    requires
        served(pre, command, post, outcome),
        pre.jobs.dom().contains(id),
    ensures
        post.jobs.dom().contains(id),
        post.jobs[id].workers == pre.jobs[id].workers,
        post.jobs[id].id == pre.jobs[id].id,
{
}

/// A job is created only under an identifier that no job of the table has,
/// and every job that was there stays as it was, with what it awaits.
pub proof fn lemma_new_job_has_a_free_id(
    pre: StateModel,
    post: StateModel,
    outcome: Outcome,
    job_id: JobId,
)
    requires
        served(pre, Command::AddJob, post, outcome),
        outcome == Outcome::AddJob(Ok(job_id)),
    ensures
        !pre.jobs.dom().contains(job_id),
        is_random_uuid(job_id.0),
        post.jobs == pre.jobs.insert(job_id, crate::state::job::JobModel::fresh(job_id, pre.workers)),
        post.workers == pre.workers,
        forall|id: JobId| pre.jobs.dom().contains(id) ==> post.jobs[id] == pre.jobs[id],
{
}

/// No command removes a job or a worker: every job that exists stays, and
/// the registry is what it was, with at most one worker put behind.
pub proof fn lemma_nothing_is_removed(
    pre: StateModel,
    command: Command,
    post: StateModel,
    outcome: Outcome,
)
    requires
        served(pre, command, post, outcome),
    ensures
        forall|id: JobId| pre.jobs.dom().contains(id) ==> post.jobs.dom().contains(id),
        post.workers == pre.workers || (command matches Command::AddWorker { addr, sender }
            && post.workers == pre.workers.push(Worker::of(addr, sender))),
{
}

/// A reply for which no request is pending is never accepted: the answer is
/// an error, `JobNotFound` where the job is unknown and `NoPendingTask` where
/// the job awaits nothing of that worker, and no job awaits more or less than
/// before.
pub proof fn lemma_stray_reply_refused(
    pre: StateModel,
    job_id: JobId,
    addr: WorkerAddr,
    post: StateModel,
    r: Result<(), Error>,
)
    requires
        reply_delivered(pre, job_id, addr, post, r),
        !(pre.jobs.dom().contains(job_id) && pre.jobs[job_id].pending().contains(addr)),
    ensures
        r == if pre.jobs.dom().contains(job_id) {
            Err::<(), Error>(Error::NoPendingTask { addr })
        } else {
            Err::<(), Error>(Error::JobNotFound { job_id })
        },
        post == pre,
{
    if pre.jobs.dom().contains(job_id) {
        let job = pre.jobs[job_id];
        assert(job.waiters.remove(addr) =~= job.waiters);
        assert(post.jobs[job_id] =~= job);
        assert(post.jobs =~= pre.jobs);
    }
}

} // verus!
