use vstd::prelude::*;
use vstd::slice::slice_to_vec;

verus! {

/// What a message holds: its kind, the job identifier as text, and the
/// encoded parameters (none in a request for the initial weights).
pub enum MessageModel {
    Weights { job_id: Seq<char>, weights: Seq<u8> },
    Fit { job_id: Seq<char>, weights: Seq<u8> },
}

/// A message from the coordinator to a worker.
#[derive(Debug, PartialEq, Eq)]
pub enum CoordinatorMessage {
    /// Asks a worker for its initial weights.
    WeightsRequest { job_id: String },
    /// Asks a worker to train one round from the given weights.
    FitRequest { job_id: String, weights: Vec<u8> },
}

impl View for CoordinatorMessage {
    type V = MessageModel;

    open spec fn view(&self) -> MessageModel {
        match self {
            CoordinatorMessage::WeightsRequest { job_id } => MessageModel::Weights {
                job_id: job_id@,
                weights: Seq::empty(),
            },
            CoordinatorMessage::FitRequest { job_id, weights } => MessageModel::Fit {
                job_id: job_id@,
                weights: weights@,
            },
        }
    }
}

impl Clone for CoordinatorMessage {
    /// A copy of the message.
    fn clone(&self) -> (r: CoordinatorMessage)
        ensures
            r@ == self@,
    {
        match self {
            CoordinatorMessage::WeightsRequest { job_id } => CoordinatorMessage::WeightsRequest {
                job_id: job_id.clone(),
            },
            CoordinatorMessage::FitRequest { job_id, weights } => CoordinatorMessage::FitRequest {
                job_id: job_id.clone(),
                weights: slice_to_vec(weights.as_slice()),
            },
        }
    }
}

/// A message from a worker to the coordinator.
#[derive(Debug, PartialEq, Eq)]
pub enum WorkerMessage {
    /// The worker's initial weights.
    WeightsResponse { job_id: String, weights: Vec<u8> },
    /// The weights after one round of training.
    FitResponse { job_id: String, weights: Vec<u8> },
}

impl View for WorkerMessage {
    type V = MessageModel;

    open spec fn view(&self) -> MessageModel {
        match self {
            WorkerMessage::WeightsResponse { job_id, weights } => MessageModel::Weights {
                job_id: job_id@,
                weights: weights@,
            },
            WorkerMessage::FitResponse { job_id, weights } => MessageModel::Fit {
                job_id: job_id@,
                weights: weights@,
            },
        }
    }
}

impl MessageModel {
    /// The job identifier of the message, as text.
    pub open spec fn job_text(self) -> Seq<char> {
        match self {
            MessageModel::Weights { job_id, .. } => job_id,
            MessageModel::Fit { job_id, .. } => job_id,
        }
    }

    /// The encoded parameters of the message.
    pub open spec fn payload(self) -> Seq<u8> {
        match self {
            MessageModel::Weights { weights, .. } => weights,
            MessageModel::Fit { weights, .. } => weights,
        }
    }
}

} // verus!
