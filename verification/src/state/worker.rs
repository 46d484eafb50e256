use vstd::prelude::*;
use crate::address::WorkerAddr;
use crate::message::CoordinatorMessage;

verus! {

/// tokio's bounded multi-producer sender: the channel on which messages
/// reach a worker. It is carried through as it is; sending is left to the
/// caller.
#[verifier::external_type_specification]
#[verifier::external_body]
#[verifier::reject_recursive_types(T)]
pub struct ExOutboundSender<T>(tokio::sync::mpsc::Sender<T>);

/// A second handle to the same channel, made by `Sender::clone`. A sender is
/// nothing but its shared pointer to the channel, and the clone holds the
/// same pointer: as values the two are equal.
#[verifier::external_body]
fn second_handle(sender: &tokio::sync::mpsc::Sender<CoordinatorMessage>) -> (r:
    tokio::sync::mpsc::Sender<CoordinatorMessage>)
    ensures
        r == *sender,
{
    sender.clone()
}

/// A connected worker: its network identity and the channel on which the
/// coordinator's messages reach it.
pub struct Worker {
    addr: WorkerAddr,
    sender: tokio::sync::mpsc::Sender<CoordinatorMessage>,
}

impl Worker {
    /// The network identity of the worker.
    pub closed spec fn spec_addr(&self) -> WorkerAddr {
        self.addr
    }

    /// The channel on which the coordinator's messages reach the worker.
    pub closed spec fn spec_sender(&self) -> tokio::sync::mpsc::Sender<CoordinatorMessage> {
        self.sender
    }

    /// The worker at `addr` that listens on `sender`.
    pub closed spec fn of(
        addr: WorkerAddr,
        sender: tokio::sync::mpsc::Sender<CoordinatorMessage>,
    ) -> Worker {
        Worker { addr, sender }
    }

    /// A worker is its identity and its channel.
    pub proof fn lemma_of(addr: WorkerAddr, sender: tokio::sync::mpsc::Sender<CoordinatorMessage>)
        ensures
            Worker::of(addr, sender).addr() == addr,
            Worker::of(addr, sender).spec_sender() == sender,
    {
    }

    /// A worker at `addr` that listens on `sender`.
    pub fn new(addr: WorkerAddr, sender: tokio::sync::mpsc::Sender<CoordinatorMessage>) -> (w:
        Worker)
        ensures
            w == Worker::of(addr, sender),
            w.addr() == addr,
            w.spec_sender() == sender,
    {
        Worker { addr, sender }
    }

    /// The network identity of the worker.
    #[verifier::when_used_as_spec(spec_addr)]
    pub fn addr(&self) -> (a: WorkerAddr)
        ensures
            a == self.addr(),
    {
        self.addr
    }

    /// The channel on which the coordinator's messages reach the worker.
    pub fn sender(&self) -> (sender: &tokio::sync::mpsc::Sender<CoordinatorMessage>)
        ensures
            *sender == self.spec_sender(),
    {
        &self.sender
    }
}

impl Clone for Worker {
    /// Another handle to the same worker: the same identity and the same
    /// channel.
    fn clone(&self) -> (w: Worker)
        ensures
            w == *self,
    {
        Worker { addr: self.addr, sender: second_handle(&self.sender) }
    }
}

/// The network identities of a list of workers, in order.
pub open spec fn addrs_of(workers: Seq<Worker>) -> Seq<WorkerAddr> {
    Seq::new(workers.len(), |i: int| workers[i].addr())
}

/// A copy of a list of workers: the same workers in the same order.
pub fn snapshot(workers: &Vec<Worker>) -> (r: Vec<Worker>)
    ensures
        r@ == workers@,
{
    let mut r: Vec<Worker> = Vec::new();
    let mut i: usize = 0;
    while i < workers.len()
        invariant
            i <= workers.len(),
            r@.len() == i,
            forall|k: int| 0 <= k < i ==> (#[trigger] r@[k]) == workers@[k],
        decreases workers.len() - i,
    {
        r.push(workers[i].clone());
        i = i + 1;
    }
    assert(r@ =~= workers@);
    r
}

} // verus!
