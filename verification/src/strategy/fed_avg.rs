use vstd::prelude::*;
use crate::address::WorkerAddr;
use crate::error::Error;
use crate::job_id::JobId;
use crate::parameters::{mergeable, merged, scaled_down, ParameterMap, ParameterModel};
use crate::tensor::TensorModel;

verus! {

/// What the replies hold, one model for each.
pub open spec fn models_of(replies: Seq<ParameterMap>) -> Seq<ParameterModel> {
    Seq::new(replies.len(), |i: int| replies[i]@)
}

/// The sum of the replies, name by name, taken in their order. `None` where
/// two tensors that meet under one name differ in element type or shape.
pub open spec fn summed(replies: Seq<ParameterModel>) -> Option<ParameterModel>
    decreases replies.len(),
{
    if replies.len() == 0 {
        Some(Map::empty())
    } else {
        match summed(replies.drop_last()) {
            Some(sum) => if mergeable(sum, replies.last()) {
                Some(merged(sum, replies.last()))
            } else {
                None
            },
            None => None,
        }
    }
}

/// The number of replies as candle takes it: a 64-bit signed integer. A
/// length beyond 63 bits, which no vector in memory has, is cut to 64 bits.
pub open spec fn reply_count(replies: Seq<ParameterModel>) -> i64 {
    replies.len() as i64
}

/// The average of the replies: under every name that a reply holds, the sum
/// of the tensors that the replies hold under it, scaled by the reciprocal of
/// the number of replies.
pub open spec fn averaged(replies: Seq<ParameterModel>) -> Result<ParameterModel, Error> {
    match summed(replies) {
        Some(sum) => Ok(scaled_down(sum, reply_count(replies))),
        None => Err(Error::IncompatibleTensors),
    }
}

/// Where the first replies have no sum, all of them have none.
proof fn lemma_no_sum_stays(replies: Seq<ParameterModel>, n: int)
    requires
        0 <= n <= replies.len(),
        summed(replies.take(n)) is None,
    ensures
        summed(replies) is None,
    decreases replies.len(),
{
    if n == replies.len() {
        assert(replies.take(n) =~= replies);
    } else {
        assert(replies.drop_last().take(n) =~= replies.take(n));
        lemma_no_sum_stays(replies.drop_last(), n);
    }
}

/// The names of the sum are the names that at least one reply holds.
pub proof fn lemma_sum_names(replies: Seq<ParameterModel>)
    requires
        summed(replies) is Some,
    ensures
        forall|name: Seq<char>|
            summed(replies)->0.dom().contains(name) <==> exists|i: int|
                0 <= i < replies.len() && (#[trigger] replies[i]).dom().contains(name),
    decreases replies.len(),
{
    let sum = summed(replies)->0;
    if replies.len() == 0 {
    } else {
        let shorter = replies.drop_last();
        lemma_sum_names(shorter);
        let before = summed(shorter)->0;
        assert forall|name: Seq<char>|
            sum.dom().contains(name) <==> exists|i: int|
                0 <= i < replies.len() && (#[trigger] replies[i]).dom().contains(name) by {
            if sum.dom().contains(name) {
                if before.dom().contains(name) {
                    let i = choose|i: int|
                        0 <= i < shorter.len() && (#[trigger] shorter[i]).dom().contains(name);
                    assert(replies[i].dom().contains(name));
                } else {
                    assert(replies[replies.len() - 1].dom().contains(name));
                }
            }
            if exists|i: int| 0 <= i < replies.len() && (#[trigger] replies[i]).dom().contains(name) {
                let i = choose|i: int|
                    0 <= i < replies.len() && (#[trigger] replies[i]).dom().contains(name);
                if i < shorter.len() {
                    assert(shorter[i].dom().contains(name));
                }
            }
        }
    }
}

/// The average holds a tensor under exactly the names that at least one
/// reply holds, in whatever order the replies come.
pub proof fn lemma_average_names(replies: Seq<ParameterModel>)
    requires
        averaged(replies) is Ok,
    ensures
        forall|name: Seq<char>|
            averaged(replies)->Ok_0.dom().contains(name) <==> exists|i: int|
                0 <= i < replies.len() && (#[trigger] replies[i]).dom().contains(name),
{
    lemma_sum_names(replies);
}

/// Whether the tensors that any two replies hold under one name agree in
/// element type and shape.
pub open spec fn matching(replies: Seq<ParameterModel>) -> bool {
    forall|i: int, j: int, name: Seq<char>|
        #![trigger replies[i].dom().contains(name), replies[j].dom().contains(name)]
        0 <= i < replies.len() && 0 <= j < replies.len() && replies[i].dom().contains(name)
            && replies[j].dom().contains(name) ==> replies[i][name].compatible(replies[j][name])
}

/// Replies that match have a sum, which holds under every name a tensor of
/// the element type and shape that the replies hold under it.
pub proof fn lemma_matching_replies_have_a_sum(replies: Seq<ParameterModel>)
    requires
        matching(replies),
    ensures
        summed(replies) is Some,
        forall|i: int, name: Seq<char>|
            #![trigger replies[i].dom().contains(name)]
            0 <= i < replies.len() && replies[i].dom().contains(name) ==> summed(
                replies,
            )->0.dom().contains(name) && summed(replies)->0[name].compatible(replies[i][name]),
    decreases replies.len(),
{
    if replies.len() > 0 {
        let shorter = replies.drop_last();
        let last = replies.last();
        assert(matching(shorter)) by {
            assert forall|i: int, j: int, name: Seq<char>|
                #![trigger shorter[i].dom().contains(name), shorter[j].dom().contains(name)]
                0 <= i < shorter.len() && 0 <= j < shorter.len() && shorter[i].dom().contains(name)
                    && shorter[j].dom().contains(name) implies shorter[i][name].compatible(
                shorter[j][name],
            ) by {
                assert(replies[i].dom().contains(name) && replies[j].dom().contains(name));
            }
        }
        lemma_matching_replies_have_a_sum(shorter);
        lemma_sum_names(shorter);
        let sum = summed(shorter)->0;
        assert forall|name: Seq<char>|
            sum.dom().contains(name) && last.dom().contains(name) implies (#[trigger] sum[name]).compatible(
            last[name],
        ) by {
            let i = choose|i: int| 0 <= i < shorter.len() && (#[trigger] shorter[i]).dom().contains(name);
            assert(replies[i].dom().contains(name));
            assert(replies[replies.len() - 1].dom().contains(name));
            assert(sum[name].compatible(shorter[i][name]));
            assert(replies[i][name].compatible(replies[replies.len() - 1][name]));
        }
        assert(mergeable(sum, last));
        let total = merged(sum, last);
        assert forall|i: int, name: Seq<char>|
            #![trigger replies[i].dom().contains(name)]
            0 <= i < replies.len() && replies[i].dom().contains(name) implies total.dom().contains(
            name,
        ) && total[name].compatible(replies[i][name]) by {
            if i < shorter.len() {
                assert(shorter[i].dom().contains(name));
                assert(sum[name].compatible(replies[i][name]));
            } else if sum.dom().contains(name) {
                assert(sum[name].compatible(last[name]));
            }
        }
    }
}

/// Replies that match have an average: it holds a tensor under exactly the
/// names that at least one reply holds, each of the element type and shape
/// that the replies hold under that name, whatever the number and the order
/// of the replies.
pub proof fn lemma_matching_replies_have_an_average(replies: Seq<ParameterModel>)
    requires
        matching(replies),
    ensures
        averaged(replies) is Ok,
        forall|name: Seq<char>|
            averaged(replies)->Ok_0.dom().contains(name) <==> exists|i: int|
                0 <= i < replies.len() && (#[trigger] replies[i]).dom().contains(name),
        forall|i: int, name: Seq<char>|
            #![trigger replies[i].dom().contains(name)]
            0 <= i < replies.len() && replies[i].dom().contains(name) ==> averaged(
                replies,
            )->Ok_0[name].compatible(replies[i][name]),
{
    lemma_matching_replies_have_a_sum(replies);
    lemma_average_names(replies);
}

/// The average of a single reply holds each of its tensors scaled by one.
pub proof fn lemma_average_of_one(reply: ParameterModel)
    ensures
        averaged(seq![reply]) == Ok::<ParameterModel, Error>(scaled_down(reply, 1)),
{
    let replies = seq![reply];
    assert(replies.drop_last() =~= Seq::<ParameterModel>::empty());
    assert(summed(replies.drop_last()) == Some(Map::<Seq<char>, TensorModel>::empty()));
    let nothing = Map::<Seq<char>, TensorModel>::empty();
    assert(mergeable(nothing, reply));
    assert(merged(nothing, reply) =~= reply);
    assert(replies.last() == reply);
}

/// Averages the replies of a round.
pub fn average_weights(replies: &Vec<ParameterMap>) -> (r: Result<ParameterMap, Error>)
    ensures
        match r {
            Ok(average) => averaged(models_of(replies@)) == Ok::<ParameterModel, Error>(average@),
            Err(e) => averaged(models_of(replies@)) == Err::<ParameterModel, Error>(e),
        },
{
    let ghost models = models_of(replies@);
    let mut sum = ParameterMap::new();
    let mut i: usize = 0;
    assert(models.take(0) =~= Seq::<ParameterModel>::empty());
    while i < replies.len()
        invariant
            i <= replies.len(),
            models == models_of(replies@),
            summed(models.take(i as int)) == Some(sum@),
        decreases replies.len() - i,
    {
        proof {
            assert(models.take(i + 1).drop_last() =~= models.take(i as int));
            assert(models.take(i + 1).last() == replies@[i as int]@);
        }
        sum = match sum.merge(&replies[i]) {
            Some(next) => next,
            None => {
                proof {
                    lemma_no_sum_stays(models, i + 1);
                }
                return Err(Error::IncompatibleTensors);
            },
        };
        i = i + 1;
    }
    assert(models.take(i as int) =~= models);
    let count: i64 = #[verifier::truncate] (replies.len() as i64);
    assert(models.len() == replies.len());
    Ok(sum.scale_down(count))
}

/// What one worker's part in a request came to: the request did not leave,
/// the waiter was dropped before a reply came, or the reply.
pub fn leg_outcome(addr: WorkerAddr, sent: bool, reply: Option<ParameterMap>) -> (r: Result<
    ParameterMap,
    Error,
>)
    ensures
        r == if !sent {
            Err::<ParameterMap, Error>(Error::SendFailed { addr })
        } else {
            match reply {
                Some(weights) => Ok::<ParameterMap, Error>(weights),
                None => Err::<ParameterMap, Error>(Error::ChannelClosed { addr }),
            }
        },
{
    if !sent {
        return Err(Error::SendFailed { addr });
    }
    match reply {
        Some(weights) => Ok(weights),
        None => Err(Error::ChannelClosed { addr }),
    }
}

/// Whether leg `k` is the first that failed, with the error `e`.
pub open spec fn fails_first_at(legs: Seq<Result<ParameterMap, Error>>, k: int, e: Error) -> bool {
    &&& 0 <= k < legs.len()
    &&& legs[k] == Err::<ParameterMap, Error>(e)
    &&& forall|j: int| 0 <= j < k ==> (#[trigger] legs[j]) is Ok
}

/// What gathering the legs of a round gives: all the replies in the order of
/// the legs if every leg brought one, and else the error of the first leg
/// that failed.
pub open spec fn gathered(legs: Seq<Result<ParameterMap, Error>>, r: Result<Vec<ParameterMap>, Error>) -> bool {
    match r {
        Ok(replies) => replies@.len() == legs.len() && forall|i: int|
            0 <= i < legs.len() ==> (#[trigger] legs[i]) == Ok::<ParameterMap, Error>(replies@[i]),
        Err(e) => exists|k: int| fails_first_at(legs, k, e),
    }
}

/// A round is all or nothing: if one leg failed, gathering the legs fails,
/// whatever the other legs brought, and the run that is told so ends with
/// that failure and computes no average.
pub proof fn lemma_failed_leg_fails_round(
    legs: Seq<Result<ParameterMap, Error>>,
    r: Result<Vec<ParameterMap>, Error>,
    k: int,
    job_id: JobId,
    rounds_left: usize,
)
    requires
        gathered(legs, r),
        0 <= k < legs.len(),
        legs[k] is Err,
    ensures
        r is Err,
        fit_step(FitPhase::Training { job_id, rounds_left }, FitEvent::RoundCompleted(r)) == failed(
            r->Err_0,
        ),
{
}

/// Gathers the legs of a round: all the replies in the order of the legs if
/// every leg brought one, and else the error of the first leg that failed,
/// with no reply at all.
pub fn collect_round(legs: Vec<Result<ParameterMap, Error>>) -> (r: Result<Vec<ParameterMap>, Error>)
    ensures
        gathered(legs@, r),
{
    let ghost all = legs@;
    let mut rest = legs;
    let mut replies: Vec<ParameterMap> = Vec::new();
    while rest.len() > 0
        invariant
            all == legs@,
            replies@.len() + rest@.len() == all.len(),
            rest@ == all.skip(replies@.len() as int),
            forall|i: int|
                0 <= i < replies@.len() ==> (#[trigger] all[i]) == Ok::<ParameterMap, Error>(replies@[i]),
        decreases rest.len(),
    {
        let ghost done = replies@.len() as int;
        let leg = rest.remove(0);
        proof {
            assert(leg == all[done]);
            assert(rest@ =~= all.skip(done + 1));
        }
        match leg {
            Ok(weights) => {
                replies.push(weights);
            },
            Err(e) => {
                assert(fails_first_at(all, done, e));
                return Err(e);
            },
        }
    }
    Ok(replies)
}

/// Where a training run stands.
#[derive(Clone, Copy, Debug, PartialEq, Eq, Structural)]
pub enum FitPhase {
    /// Not started.
    Idle,
    /// A job was asked for.
    CreatingJob { num_rounds: usize },
    /// The initial weights were asked for.
    FetchingWeights { job_id: JobId, num_rounds: usize },
    /// A round is under way; `rounds_left` counts it.
    Training { job_id: JobId, rounds_left: usize },
    /// The run is over.
    Finished,
}

/// What a training run is told.
pub enum FitEvent {
    /// Train for `num_rounds` rounds.
    Start { num_rounds: usize },
    /// What creating the job came to.
    JobCreated(Result<JobId, Error>),
    /// What fetching the initial weights came to.
    InitialWeights(Result<ParameterMap, Error>),
    /// What the round came to: a reply of every worker, or the first failure.
    RoundCompleted(Result<Vec<ParameterMap>, Error>),
}

/// What a training run asks for next.
pub enum FitAction {
    /// Create a job over the workers registered so far.
    CreateJob,
    /// Ask the first worker of the job for its initial weights.
    FetchInitialParameters { job_id: JobId },
    /// Run one round from `parameters`.
    ExecuteFitRound { job_id: JobId, parameters: ParameterMap },
    /// The run is over, with the final weights or the first failure.
    Finish(Result<ParameterMap, Error>),
}

/// What an action holds.
pub enum ActionModel {
    CreateJob,
    FetchInitialParameters { job_id: JobId },
    ExecuteFitRound { job_id: JobId, parameters: ParameterModel },
    Finish(Result<ParameterModel, Error>),
}

impl View for FitAction {
    type V = ActionModel;

    open spec fn view(&self) -> ActionModel {
        match self {
            FitAction::CreateJob => ActionModel::CreateJob,
            FitAction::FetchInitialParameters { job_id } => ActionModel::FetchInitialParameters {
                job_id: *job_id,
            },
            FitAction::ExecuteFitRound { job_id, parameters } => ActionModel::ExecuteFitRound {
                job_id: *job_id,
                parameters: parameters@,
            },
            FitAction::Finish(Ok(parameters)) => ActionModel::Finish(Ok(parameters@)),
            FitAction::Finish(Err(e)) => ActionModel::Finish(Err(*e)),
        }
    }
}

/// The run ends with the failure `e`.
pub open spec fn failed(e: Error) -> (FitPhase, ActionModel) {
    (FitPhase::Finished, ActionModel::Finish(Err(e)))
}

/// What comes after weights are at hand with `rounds_left` rounds to go:
/// another round, or the end of the run with these weights.
pub open spec fn continue_with(job_id: JobId, rounds_left: usize, parameters: ParameterModel) -> (
    FitPhase,
    ActionModel,
) {
    if rounds_left == 0 {
        (FitPhase::Finished, ActionModel::Finish(Ok(parameters)))
    } else {
        (FitPhase::Training { job_id, rounds_left }, ActionModel::ExecuteFitRound { job_id, parameters })
    }
}

/// One step of federated averaging: create a job, fetch the initial weights,
/// then run the rounds, each from the average of the replies of the round
/// before. The first failure ends the run, and so does an event that the run
/// was not waiting for.
pub open spec fn fit_step(phase: FitPhase, event: FitEvent) -> (FitPhase, ActionModel) {
    match (phase, event) {
        (FitPhase::Idle, FitEvent::Start { num_rounds }) => (
            FitPhase::CreatingJob { num_rounds },
            ActionModel::CreateJob,
        ),
        (FitPhase::CreatingJob { num_rounds }, FitEvent::JobCreated(Ok(job_id))) => (
            FitPhase::FetchingWeights { job_id, num_rounds },
            ActionModel::FetchInitialParameters { job_id },
        ),
        (FitPhase::CreatingJob { .. }, FitEvent::JobCreated(Err(e))) => failed(e),
        (FitPhase::FetchingWeights { job_id, num_rounds }, FitEvent::InitialWeights(Ok(weights))) => continue_with(
            job_id,
            num_rounds,
            weights@,
        ),
        (FitPhase::FetchingWeights { .. }, FitEvent::InitialWeights(Err(e))) => failed(e),
        (FitPhase::Training { job_id, rounds_left }, FitEvent::RoundCompleted(Ok(replies))) => match averaged(
            models_of(replies@),
        ) {
            Ok(average) => continue_with(
                job_id,
                if rounds_left == 0 {
                    0usize
                } else {
                    (rounds_left - 1) as usize
                },
                average,
            ),
            Err(e) => failed(e),
        },
        (FitPhase::Training { .. }, FitEvent::RoundCompleted(Err(e))) => failed(e),
        _ => failed(Error::UnexpectedEvent),
    }
}

/// Workers that hand back what they were sent leave the weights as they are:
/// if every reply of a round holds the weights `sent`, and the average of so
/// many equal replies is `sent` again (which is the case where the arithmetic
/// on its numbers is exact), then the run goes on, or ends, with `sent`.
pub proof fn lemma_echo_keeps_weights(
    job_id: JobId,
    rounds_left: usize,
    replies: Vec<ParameterMap>,
    sent: ParameterModel,
)
    requires
        forall|i: int| 0 <= i < replies@.len() ==> (#[trigger] replies@[i])@ == sent,
        averaged(Seq::new(replies@.len(), |i: int| sent)) == Ok::<ParameterModel, Error>(sent),
    ensures
        ({
            let next = fit_step(
                FitPhase::Training { job_id, rounds_left },
                FitEvent::RoundCompleted(Ok(replies)),
            ).1;
            next == (ActionModel::ExecuteFitRound { job_id, parameters: sent }) || next
                == ActionModel::Finish(Ok(sent))
        }),
{
    assert(models_of(replies@) =~= Seq::new(replies@.len(), |i: int| sent));
}

/// Federated averaging: the weights of a round are the average of what the
/// workers made of the weights of the round before.
pub struct FedAvg {
    phase: FitPhase,
}

impl View for FedAvg {
    type V = FitPhase;

    closed spec fn view(&self) -> FitPhase {
        self.phase
    }
}

impl FedAvg {
    /// A training run that has not started.
    pub fn new() -> (strategy: FedAvg)
        ensures
            strategy@ == FitPhase::Idle,
    {
        FedAvg { phase: FitPhase::Idle }
    }

    /// Where the run stands.
    pub fn phase(&self) -> (phase: FitPhase)
        ensures
            phase == self@,
    {
        self.phase
    }

    /// Ends the run with the failure `e`.
    fn fail(&mut self, e: Error) -> (action: FitAction)
        ensures
            (final(self)@, action@) == failed(e),
    {
        self.phase = FitPhase::Finished;
        FitAction::Finish(Err(e))
    }

    /// Goes on with `parameters` at hand and `rounds_left` rounds to go.
    fn proceed(&mut self, job_id: JobId, rounds_left: usize, parameters: ParameterMap) -> (action:
        FitAction)
        ensures
            (final(self)@, action@) == continue_with(job_id, rounds_left, parameters@),
    {
        if rounds_left == 0 {
            self.phase = FitPhase::Finished;
            FitAction::Finish(Ok(parameters))
        } else {
            self.phase = FitPhase::Training { job_id, rounds_left };
            FitAction::ExecuteFitRound { job_id, parameters }
        }
    }

    /// Takes the run one step further: tells what to do next, given what the
    /// last action came to.
    pub fn fit(&mut self, event: FitEvent) -> (action: FitAction)
        ensures
            (final(self)@, action@) == fit_step(old(self)@, event),
    {
        match (self.phase, event) {
            (FitPhase::Idle, FitEvent::Start { num_rounds }) => {
                self.phase = FitPhase::CreatingJob { num_rounds };
                FitAction::CreateJob
            },
            (FitPhase::CreatingJob { num_rounds }, FitEvent::JobCreated(Ok(job_id))) => {
                self.phase = FitPhase::FetchingWeights { job_id, num_rounds };
                FitAction::FetchInitialParameters { job_id }
            },
            (FitPhase::CreatingJob { .. }, FitEvent::JobCreated(Err(e))) => self.fail(e),
            (
                FitPhase::FetchingWeights { job_id, num_rounds },
                FitEvent::InitialWeights(Ok(weights)),
            ) => self.proceed(job_id, num_rounds, weights),
            (FitPhase::FetchingWeights { .. }, FitEvent::InitialWeights(Err(e))) => self.fail(e),
            (FitPhase::Training { job_id, rounds_left }, FitEvent::RoundCompleted(Ok(replies))) => {
                match average_weights(&replies) {
                    Ok(average) => {
                        let left: usize = if rounds_left == 0 {
                            0
                        } else {
                            rounds_left - 1
                        };
                        self.proceed(job_id, left, average)
                    },
                    Err(e) => self.fail(e),
                }
            },
            (FitPhase::Training { .. }, FitEvent::RoundCompleted(Err(e))) => self.fail(e),
            _ => self.fail(Error::UnexpectedEvent),
        }
    }
}

} // verus!
