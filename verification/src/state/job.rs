use vstd::prelude::*;
use crate::address::WorkerAddr;
use crate::error::Error;
use crate::job_id::{is_random_uuid, uuid_text, JobId};
use crate::message::{CoordinatorMessage, MessageModel};
use crate::parameters::{encoded, ParameterMap, ParameterModel};
use crate::state::worker::{addrs_of, Worker};
use vstd::slice::slice_to_vec;

verus! {

/// tokio's one-shot sender: what is kept for a pending request. It is carried
/// through as it is; nothing of its inside is read.
#[verifier::external_type_specification]
#[verifier::external_body]
#[verifier::reject_recursive_types(T)]
pub struct ExWaiterSender<T>(tokio::sync::oneshot::Sender<T>);

/// tokio's one-shot receiver: what is handed out with a request, for whoever
/// awaits the reply. It is carried through as it is.
#[verifier::external_type_specification]
#[verifier::external_body]
#[verifier::reject_recursive_types(T)]
pub struct ExWaiterReceiver<T>(tokio::sync::oneshot::Receiver<T>);

/// The error with which awaiting a one-shot receiver ends when its sender is
/// gone. The receiver's type names it; no value of it occurs here.
#[verifier::external_type_specification]
#[verifier::external_body]
pub struct ExWaiterError(tokio::sync::oneshot::error::RecvError);

/// Opens a one-shot channel with `tokio::sync::oneshot::channel`: the sending
/// half is kept until the reply arrives, the receiving half goes to whoever
/// awaits it. Nothing is claimed of the two halves.
#[verifier::external_body]
fn open_waiter() -> (halves: (
    tokio::sync::oneshot::Sender<ParameterMap>,
    tokio::sync::oneshot::Receiver<ParameterMap>,
))
{
    tokio::sync::oneshot::channel()
}

/// Hands a reply to a waiter with `tokio::sync::oneshot::Sender::send`, and
/// tells whether the receiving half took it. Whether it does depends on the
/// receiving half being alive, so nothing is claimed of the answer.
#[verifier::external_body]
fn hand_over(waiter: tokio::sync::oneshot::Sender<ParameterMap>, weights: ParameterMap) -> (delivered:
    bool)
{
    waiter.send(weights).is_ok()
}

/// What is kept for a pending request: the sending half of a one-shot
/// channel.
pub type Waiter = tokio::sync::oneshot::Sender<ParameterMap>;

/// What a job is: its identifier, its workers in the order of their
/// registration, and the waiter kept for each worker whose reply is awaited.
#[verifier::ext_equal]
pub struct JobModel {
    pub id: JobId,
    pub workers: Seq<Worker>,
    pub waiters: Map<WorkerAddr, Waiter>,
}

impl JobModel {
    /// The identities of the workers whose reply is awaited.
    pub open spec fn pending(self) -> Set<WorkerAddr> {
        self.waiters.dom()
    }

    /// A job that awaits nothing.
    pub open spec fn fresh(id: JobId, workers: Seq<Worker>) -> JobModel {
        JobModel { id, workers, waiters: Map::empty() }
    }

    /// The job once `waiter` is kept for the reply of `addr`, in place of a
    /// waiter that was kept for it before.
    pub open spec fn expecting(self, addr: WorkerAddr, waiter: Waiter) -> JobModel {
        JobModel { waiters: self.waiters.insert(addr, waiter), ..self }
    }

    /// The job once no reply of `addr` is awaited any more.
    pub open spec fn resolved(self, addr: WorkerAddr) -> JobModel {
        JobModel { waiters: self.waiters.remove(addr), ..self }
    }

    /// Whether `later` is this job after the workers at `addrs` were asked:
    /// it awaits them beside what it awaited before, under new waiters, and
    /// keeps the waiter of every other address.
    pub open spec fn asked(self, addrs: Set<WorkerAddr>, later: JobModel) -> bool {
        &&& later.id == self.id
        &&& later.workers == self.workers
        &&& later.waiters.dom() =~= self.waiters.dom().union(addrs)
        &&& forall|addr: WorkerAddr|
            self.waiters.dom().contains(addr) && !addrs.contains(addr) ==> #[trigger] later.waiters[addr]
                == self.waiters[addr]
    }
}

/// A request that is ready to leave: the worker to send it to, the message,
/// and the receiving half of the channel on which the reply will arrive.
pub struct Dispatch {
    pub worker: Worker,
    pub message: CoordinatorMessage,
    pub receiver: tokio::sync::oneshot::Receiver<ParameterMap>,
}

/// A reply that is ready to be handed over: the waiter that was kept for it,
/// and the weights.
pub struct Delivery {
    pub waiter: Waiter,
    pub weights: ParameterMap,
}

/// What asking a job for the initial weights does: with no worker it fails
/// and changes nothing; else the request goes to the first worker, whose
/// reply is awaited from then on.
pub open spec fn weights_requested(pre: JobModel, post: JobModel, r: Result<Dispatch, Error>) -> bool {
    match r {
        Ok(dispatch) => {
            &&& pre.workers.len() > 0
            &&& dispatch.worker == pre.workers[0]
            &&& dispatch.message@ == (MessageModel::Weights {
                job_id: uuid_text(pre.id.0),
                weights: Seq::empty(),
            })
            &&& pre.asked(set![pre.workers[0].addr()], post)
        },
        Err(e) => pre.workers.len() == 0 && e == (Error::WorkerUnavailable { job_id: pre.id })
            && post == pre,
    }
}

/// What starting a round does: if the weights cannot be encoded it fails and
/// changes nothing; else one request with the encoded weights is ready for
/// each worker, in the order of the workers, and the reply of each is
/// awaited.
pub open spec fn round_started(
    pre: JobModel,
    weights: ParameterModel,
    post: JobModel,
    r: Result<Vec<Dispatch>, Error>,
) -> bool {
    match r {
        Ok(dispatches) => {
            &&& encoded(weights) is Some
            &&& dispatches@.len() == pre.workers.len()
            &&& forall|i: int|
                0 <= i < dispatches@.len() ==> (#[trigger] dispatches@[i]).worker
                    == pre.workers[i] && dispatches@[i].message@ == (MessageModel::Fit {
                    job_id: uuid_text(pre.id.0),
                    weights: encoded(weights)->0,
                })
            &&& pre.asked(addrs_of(pre.workers).to_set(), post)
        },
        Err(e) => encoded(weights) is None && e == Error::EncodeError && post == pre,
    }
}

/// What taking a reply of `addr` does: where none was awaited the reply is
/// refused; where one was, the waiter that was kept for `addr` comes out
/// together with the weights as they came. Either way the job awaits no
/// reply of `addr` any more.
pub open spec fn reply_taken(
    pre: JobModel,
    addr: WorkerAddr,
    weights: ParameterMap,
    post: JobModel,
    r: Result<Delivery, Error>,
) -> bool {
    &&& post == pre.resolved(addr)
    &&& match r {
        Ok(delivery) => pre.pending().contains(addr) && delivery.waiter == pre.waiters[addr]
            && delivery.weights == weights,
        Err(e) => !pre.pending().contains(addr) && e == (Error::NoPendingTask { addr }),
    }
}

/// What a reply of `addr` does: the job awaits no reply of `addr` any more.
/// Where none was awaited the reply is refused; where one was, the reply
/// reaches the waiter or the waiter is found gone.
pub open spec fn result_set(pre: JobModel, addr: WorkerAddr, post: JobModel, r: Result<(), Error>) -> bool {
    &&& post == pre.resolved(addr)
    &&& !pre.pending().contains(addr) ==> r == Err::<(), Error>(Error::NoPendingTask { addr })
    &&& pre.pending().contains(addr) ==> r == Ok::<(), Error>(()) || r == Err::<(), Error>(
        Error::ChannelClosed { addr },
    )
}

/// The initial weights can be asked for exactly when the job has a worker:
/// asking a job without workers fails with `WorkerUnavailable` and leaves the
/// job as it was.
pub proof fn lemma_weights_need_a_worker(pre: JobModel, post: JobModel, r: Result<Dispatch, Error>)
    requires
        weights_requested(pre, post, r),
    ensures
        r is Err <==> pre.workers.len() == 0,
        r is Err ==> r->Err_0 == (Error::WorkerUnavailable { job_id: pre.id }) && post == pre,
{
}

/// A round that starts asks every worker of the job: for each of them a
/// request with the encoded weights is ready and its reply is awaited, before
/// any reply has been looked at.
pub proof fn lemma_round_asks_every_worker(
    pre: JobModel,
    weights: ParameterModel,
    post: JobModel,
    r: Result<Vec<Dispatch>, Error>,
)
    requires
        round_started(pre, weights, post, r),
        r is Ok,
    ensures
        forall|i: int|
            #![trigger pre.workers[i]]
            0 <= i < pre.workers.len() ==> {
                &&& r->Ok_0@[i].worker == pre.workers[i]
                &&& r->Ok_0@[i].message@.payload() == encoded(weights)->0
                &&& r->Ok_0@[i].message@.job_text() == uuid_text(pre.id.0)
                &&& post.pending().contains(pre.workers[i].addr())
            },
{
    assert forall|i: int|
        #![trigger pre.workers[i]]
        0 <= i < pre.workers.len() implies {
        &&& r->Ok_0@[i].worker == pre.workers[i]
        &&& r->Ok_0@[i].message@.payload() == encoded(weights)->0
        &&& r->Ok_0@[i].message@.job_text() == uuid_text(pre.id.0)
        &&& post.pending().contains(pre.workers[i].addr())
    } by {
        let dispatch = r->Ok_0@[i];
        assert(dispatch.worker == pre.workers[i]);
        assert(addrs_of(pre.workers)[i] == pre.workers[i].addr());
        assert(addrs_of(pre.workers).to_set().contains(pre.workers[i].addr()));
    }
}

/// A second request to a worker puts a new waiter in the place of the one
/// that was kept for it, and a reply then comes out with the waiter kept
/// last: `first` and then `second` are kept for `addr`, and the reply is
/// taken.
pub proof fn lemma_later_waiter_is_kept(
    job: JobModel,
    addr: WorkerAddr,
    first: Waiter,
    second: Waiter,
    weights: ParameterMap,
    post: JobModel,
    r: Result<Delivery, Error>,
)
    requires
        reply_taken(job.expecting(addr, first).expecting(addr, second), addr, weights, post, r),
    ensures
        r is Ok,
        r->Ok_0.waiter == second,
        r->Ok_0.weights == weights,
        post.waiters == job.waiters.remove(addr),
{
    assert(post.waiters =~= job.waiters.remove(addr));
}

/// A pending request: the worker asked, and the waiter for its reply.
struct Task {
    addr: WorkerAddr,
    waiter: Waiter,
}

spec fn waits_for(tasks: Seq<Task>, addr: WorkerAddr) -> bool {
    exists|i: int| 0 <= i < tasks.len() && (#[trigger] tasks[i]).addr == addr
}

spec fn task_place(tasks: Seq<Task>, addr: WorkerAddr) -> int {
    choose|i: int| 0 <= i < tasks.len() && (#[trigger] tasks[i]).addr == addr
}

spec fn waiters_of(tasks: Seq<Task>) -> Map<WorkerAddr, Waiter> {
    Map::new(
        |addr: WorkerAddr| waits_for(tasks, addr),
        |addr: WorkerAddr| tasks[task_place(tasks, addr)].waiter,
    )
}

spec fn one_task_each(tasks: Seq<Task>) -> bool {
    forall|i: int, j: int|
        0 <= i < j < tasks.len() ==> (#[trigger] tasks[i]).addr != (#[trigger] tasks[j]).addr
}

/// With one task for each address, each task's waiter is what the table
/// holds under its address.
proof fn lemma_task(tasks: Seq<Task>, i: int)
    requires
        one_task_each(tasks),
        0 <= i < tasks.len(),
    ensures
        waits_for(tasks, tasks[i].addr),
        task_place(tasks, tasks[i].addr) == i,
        waiters_of(tasks)[tasks[i].addr] == tasks[i].waiter,
{
    let addr = tasks[i].addr;
    assert(waits_for(tasks, addr));
    let k = task_place(tasks, addr);
    if k < i {
        assert(tasks[k].addr != tasks[i].addr);
    } else if i < k {
        assert(tasks[i].addr != tasks[k].addr);
    }
}

/// Putting a new waiter into task `i` puts it under that task's address.
proof fn lemma_task_replaced(before: Seq<Task>, after: Seq<Task>, i: int)
    requires
        one_task_each(before),
        0 <= i < before.len(),
        after.len() == before.len(),
        after[i].addr == before[i].addr,
        forall|k: int| 0 <= k < before.len() && k != i ==> after[k] == before[k],
    ensures
        one_task_each(after),
        waiters_of(after) == waiters_of(before).insert(after[i].addr, after[i].waiter),
{
    assert forall|k: int| 0 <= k < after.len() implies (#[trigger] after[k]).addr == before[k].addr by {}
    assert forall|a: int, b: int| 0 <= a < b < after.len() implies (#[trigger] after[a]).addr != (
    #[trigger] after[b]).addr by {
        assert(before[a].addr != before[b].addr);
    }
    let target = waiters_of(before).insert(after[i].addr, after[i].waiter);
    assert forall|addr: WorkerAddr| waits_for(after, addr) <==> target.dom().contains(addr) by {
        if waits_for(after, addr) {
            let k = task_place(after, addr);
            assert(before[k].addr == addr);
        }
        if waits_for(before, addr) {
            let k = task_place(before, addr);
            assert(after[k].addr == addr);
        }
        if addr == after[i].addr {
            assert(after[i].addr == addr);
        }
    }
    assert forall|addr: WorkerAddr| waits_for(after, addr) implies waiters_of(after)[addr]
        == target[addr] by {
        let k = task_place(after, addr);
        lemma_task(after, k);
        lemma_task(before, k);
    }
    assert(waiters_of(after) =~= target);
}

/// Appending a task for a new address puts its waiter under that address.
proof fn lemma_task_added(before: Seq<Task>, after: Seq<Task>)
    requires
        one_task_each(before),
        after.len() == before.len() + 1,
        forall|k: int| 0 <= k < before.len() ==> after[k] == before[k],
        !waits_for(before, after.last().addr),
    ensures
        one_task_each(after),
        waiters_of(after) == waiters_of(before).insert(after.last().addr, after.last().waiter),
{
    let n = before.len() as int;
    assert forall|a: int, b: int| 0 <= a < b < after.len() implies (#[trigger] after[a]).addr != (
    #[trigger] after[b]).addr by {
        if b < n {
            assert(before[a].addr != before[b].addr);
        } else {
            assert(before[a].addr == after[a].addr);
        }
    }
    let target = waiters_of(before).insert(after.last().addr, after.last().waiter);
    assert forall|addr: WorkerAddr| waits_for(after, addr) <==> target.dom().contains(addr) by {
        if waits_for(after, addr) {
            let k = task_place(after, addr);
            if k < n {
                assert(before[k].addr == addr);
            }
        }
        if waits_for(before, addr) {
            let k = task_place(before, addr);
            assert(after[k].addr == addr);
        }
        if addr == after.last().addr {
            assert(after[n].addr == addr);
        }
    }
    assert forall|addr: WorkerAddr| waits_for(after, addr) implies waiters_of(after)[addr]
        == target[addr] by {
        let k = task_place(after, addr);
        lemma_task(after, k);
        if k < n {
            lemma_task(before, k);
        }
    }
    assert(waiters_of(after) =~= target);
}

/// Taking task `i` out takes its address out of the table.
proof fn lemma_task_removed(before: Seq<Task>, after: Seq<Task>, i: int)
    requires
        one_task_each(before),
        0 <= i < before.len(),
        after == before.remove(i),
    ensures
        one_task_each(after),
        waiters_of(after) == waiters_of(before).remove(before[i].addr),
{
    assert forall|a: int, b: int| 0 <= a < b < after.len() implies (#[trigger] after[a]).addr != (
    #[trigger] after[b]).addr by {
        let a0 = if a < i { a } else { a + 1 };
        let b0 = if b < i { b } else { b + 1 };
        assert(before[a0].addr != before[b0].addr);
    }
    let gone = before[i].addr;
    let target = waiters_of(before).remove(gone);
    assert forall|addr: WorkerAddr| waits_for(after, addr) <==> target.dom().contains(addr) by {
        if waits_for(after, addr) {
            let k = task_place(after, addr);
            let k0 = if k < i { k } else { k + 1 };
            assert(before[k0].addr == addr);
            if k0 < i {
                assert(before[k0].addr != before[i].addr);
            } else {
                assert(before[i].addr != before[k0].addr);
            }
        }
        if waits_for(before, addr) && addr != gone {
            let k = task_place(before, addr);
            if k < i {
                assert(after[k].addr == addr);
            } else {
                assert(after[k - 1].addr == addr);
            }
        }
    }
    assert forall|addr: WorkerAddr| waits_for(after, addr) implies waiters_of(after)[addr]
        == target[addr] by {
        let k = task_place(after, addr);
        lemma_task(after, k);
        let k0 = if k < i { k } else { k + 1 };
        lemma_task(before, k0);
    }
    assert(waiters_of(after) =~= target);
}

/// One training run: a frozen list of workers and the requests that await a
/// reply, at most one for each worker.
pub struct Job {
    id: JobId,
    workers: Vec<Worker>,
    tasks: Vec<Task>,
}

impl View for Job {
    type V = JobModel;

    closed spec fn view(&self) -> JobModel {
        JobModel { id: self.id, workers: self.workers@, waiters: waiters_of(self.tasks@) }
    }
}

/// What the reply to a worker's message is, given whether the waiter took
/// the weights.
pub fn delivery_result(delivered: bool, addr: WorkerAddr) -> (r: Result<(), Error>)
    ensures
        delivered ==> r == Ok::<(), Error>(()),
        !delivered ==> r == Err::<(), Error>(Error::ChannelClosed { addr }),
{
    if delivered {
        Ok(())
    } else {
        Err(Error::ChannelClosed { addr })
    }
}

/// Where the request for `addr` stands among the tasks.
fn task_index(tasks: &Vec<Task>, addr: WorkerAddr) -> (r: Option<usize>)
    ensures
        match r {
            Some(i) => i < tasks.len() && tasks@[i as int].addr == addr,
            None => !waits_for(tasks@, addr),
        },
{
    let mut i: usize = 0;
    while i < tasks.len()
        invariant
            i <= tasks.len(),
            forall|k: int| 0 <= k < i ==> (#[trigger] tasks@[k]).addr != addr,
        decreases tasks.len() - i,
    {
        if tasks[i].addr == addr {
            return Some(i);
        }
        i = i + 1;
    }
    None
}

impl Job {
    /// What holds of every job: no worker is awaited twice.
    #[verifier::type_invariant]
    pub closed spec fn well_formed(self) -> bool {
        one_task_each(self.tasks@)
    }

    /// A job over `workers` under a fresh random identifier. It awaits
    /// nothing.
    pub fn new(workers: Vec<Worker>) -> (job: Job)
        ensures
            job@ == JobModel::fresh(job@.id, workers@),
            is_random_uuid(job@.id.0),
    {
        Job::with_id(JobId::generate(), workers)
    }

    /// A job over `workers` under the identifier `id`. It awaits nothing.
    pub fn with_id(id: JobId, workers: Vec<Worker>) -> (job: Job)
        ensures
            job@ == JobModel::fresh(id, workers@),
    {
        let job = Job { id, workers, tasks: Vec::new() };
        assert(job@.waiters =~= Map::<WorkerAddr, Waiter>::empty());
        job
    }

    /// The identifier of the job.
    pub fn id(&self) -> (id: JobId)
        ensures
            id == self@.id,
    {
        self.id
    }

    /// The workers of the job, in the order of their registration.
    pub fn workers(&self) -> (workers: &Vec<Worker>)
        ensures
            workers@ == self@.workers,
    {
        &self.workers
    }

    /// Whether a reply of `addr` is awaited.
    pub fn is_pending(&self, addr: WorkerAddr) -> (b: bool)
        ensures
            b == self@.pending().contains(addr),
    {
        task_index(&self.tasks, addr).is_some()
    }

    /// Keeps `waiter` for the reply of `addr`, in place of a waiter that was
    /// kept for it before.
    fn expect_reply(&mut self, addr: WorkerAddr, waiter: Waiter)
        ensures
            final(self)@ == old(self)@.expecting(addr, waiter),
            final(self).workers == old(self).workers,
    {
        proof {
            use_type_invariant(&*self);
        }
        let mut tasks: Vec<Task> = Vec::new();
        std::mem::swap(&mut tasks, &mut self.tasks);
        let ghost before = tasks@;
        match task_index(&tasks, addr) {
            Some(i) => {
                tasks.set(i, Task { addr, waiter });
                proof {
                    lemma_task_replaced(before, tasks@, i as int);
                }
            },
            None => {
                tasks.push(Task { addr, waiter });
                proof {
                    lemma_task_added(before, tasks@);
                }
            },
        }
        self.tasks = tasks;
    }

    /// Prepares the request for the initial weights: it goes to the first
    /// worker of the job.
    pub fn get_weights(&mut self) -> (r: Result<Dispatch, Error>)
        ensures
            weights_requested(old(self)@, final(self)@, r),
    {
        if self.workers.len() == 0 {
            return Err(Error::WorkerUnavailable { job_id: self.id });
        }
        let worker = self.workers[0].clone();
        let message = CoordinatorMessage::WeightsRequest { job_id: self.id.to_text() };
        let (waiter, receiver) = open_waiter();
        self.expect_reply(worker.addr(), waiter);
        Ok(Dispatch { worker, message, receiver })
    }

    /// Prepares one round: a request with `weights` for every worker of the
    /// job, in their order. The reply of every worker is awaited before any
    /// request has left.
    pub fn fit_round(&mut self, weights: &ParameterMap) -> (r: Result<Vec<Dispatch>, Error>)
        ensures
            round_started(old(self)@, weights@, final(self)@, r),
    {
        let bytes = match weights.encode() {
            Ok(bytes) => bytes,
            Err(e) => {
                return Err(e);
            },
        };
        let text = self.id.to_text();
        let ghost pre = self@;
        let ghost workers = self.workers;
        let mut dispatches: Vec<Dispatch> = Vec::new();
        let mut i: usize = 0;
        let ghost addrs = addrs_of(pre.workers);
        assert(addrs.take(0).to_set() =~= Set::<WorkerAddr>::empty());
        while i < self.workers.len()
            invariant
                i <= self.workers.len(),
                self.workers == workers,
                pre.workers == workers@,
                addrs == addrs_of(pre.workers),
                pre.asked(addrs.take(i as int).to_set(), self@),
                text@ == uuid_text(pre.id.0),
                encoded(weights@) == Some(bytes@),
                dispatches@.len() == i,
                forall|k: int|
                    0 <= k < i ==> (#[trigger] dispatches@[k]).worker == pre.workers[k]
                        && dispatches@[k].message@ == (MessageModel::Fit {
                        job_id: uuid_text(pre.id.0),
                        weights: bytes@,
                    }),
            decreases self.workers.len() - i,
        {
            let worker = self.workers[i].clone();
            let message = CoordinatorMessage::FitRequest {
                job_id: text.clone(),
                weights: slice_to_vec(bytes.as_slice()),
            };
            let (waiter, receiver) = open_waiter();
            self.expect_reply(worker.addr(), waiter);
            dispatches.push(Dispatch { worker, message, receiver });
            proof {
                assert(addrs[i as int] == pre.workers[i as int].addr());
                lemma_take_to_set(addrs, i as int);
            }
            i = i + 1;
        }
        proof {
            assert(addrs.take(i as int) =~= addrs);
        }
        Ok(dispatches)
    }

    /// Takes the waiter that is kept for the reply of `addr` out of the
    /// table, to be handed the weights of the reply.
    pub fn take_reply(&mut self, addr: WorkerAddr, weights: ParameterMap) -> (r: Result<
        Delivery,
        Error,
    >)
        ensures
            reply_taken(old(self)@, addr, weights, final(self)@, r),
    {
        proof {
            use_type_invariant(&*self);
        }
        let mut tasks: Vec<Task> = Vec::new();
        std::mem::swap(&mut tasks, &mut self.tasks);
        let ghost before = tasks@;
        match task_index(&tasks, addr) {
            Some(i) => {
                let task = tasks.remove(i);
                proof {
                    lemma_task(before, i as int);
                    lemma_task_removed(before, tasks@, i as int);
                }
                self.tasks = tasks;
                Ok(Delivery { waiter: task.waiter, weights })
            },
            None => {
                proof {
                    assert(waiters_of(before) =~= waiters_of(before).remove(addr));
                }
                self.tasks = tasks;
                Err(Error::NoPendingTask { addr })
            },
        }
    }

    /// Routes the reply of `addr` to its waiter and forgets the request: the
    /// reply is taken, and the waiter that was kept for `addr` is handed the
    /// weights.
    pub fn set_result(&mut self, addr: WorkerAddr, weights: ParameterMap) -> (r: Result<(), Error>)
        ensures
            result_set(old(self)@, addr, final(self)@, r),
    {
        match self.take_reply(addr, weights) {
            Ok(delivery) => {
                let delivered = hand_over(delivery.waiter, delivery.weights);
                delivery_result(delivered, addr)
            },
            Err(e) => Err(e),
        }
    }
}

/// The set of the first `i + 1` items is the set of the first `i` with item
/// `i` put in.
proof fn lemma_take_to_set(s: Seq<WorkerAddr>, i: int)
    requires
        0 <= i < s.len(),
    ensures
        s.take(i + 1).to_set() == s.take(i).to_set().insert(s[i]),
{
    let longer = s.take(i + 1);
    let shorter = s.take(i);
    assert forall|a: WorkerAddr| longer.contains(a) <==> shorter.contains(a) || a == s[i] by {
        if longer.contains(a) {
            let k = choose|k: int| 0 <= k < longer.len() && longer[k] == a;
            if k < i {
                assert(shorter[k] == a);
            }
        }
        if shorter.contains(a) {
            let k = choose|k: int| 0 <= k < shorter.len() && shorter[k] == a;
            assert(longer[k] == a);
        }
        if a == s[i] {
            assert(longer[i] == a);
        }
    }
    assert(longer.to_set() =~= shorter.to_set().insert(s[i]));
}

} // verus!
