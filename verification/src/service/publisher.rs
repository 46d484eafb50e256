use vstd::prelude::*;
use crate::address::WorkerAddr;
use crate::error::Error;
use crate::job_id::{parsed_uuid, JobId};
use crate::message::WorkerMessage;
use crate::archive::decoded;
use crate::parameters::ParameterMap;
use crate::state::Command;

verus! {

/// What a worker's message asks of the state owner: nothing where the call
/// carries no message; else the job identifier must be a UUID and the weights
/// must decode, in that order, and the reply is routed by the job and by the
/// address `addr` that the transport saw, not by anything in the message.
pub open spec fn published(addr: WorkerAddr, message: Option<WorkerMessage>, r: Result<
    Option<Command>,
    Error,
>) -> bool {
    match message {
        None => r == Ok::<Option<Command>, Error>(None),
        Some(m) => match parsed_uuid(m@.job_text()) {
            None => r == Err::<Option<Command>, Error>(Error::InvalidJobId),
            Some(value) => match decoded(m@.payload()) {
                None => r == Err::<Option<Command>, Error>(Error::DecodeError),
                Some(map) => {
                    &&& r matches Ok(Some(Command::SetFitResult { job_id, addr: from, weights }))
                    &&& job_id == JobId(value)
                    &&& from == addr
                    &&& weights@ == map
                },
            },
        },
    }
}

/// Turns a worker's message, received from the peer at `addr`, into the
/// command that routes its weights.
pub fn publish(addr: WorkerAddr, message: Option<WorkerMessage>) -> (r: Result<Option<Command>, Error>)
    ensures
        published(addr, message, r),
{
    let (job_text, payload) = match message {
        None => {
            return Ok(None);
        },
        Some(WorkerMessage::WeightsResponse { job_id, weights }) => (job_id, weights),
        Some(WorkerMessage::FitResponse { job_id, weights }) => (job_id, weights),
    };
    let job_id = match JobId::parse(job_text.as_str()) {
        Some(job_id) => job_id,
        None => {
            return Err(Error::InvalidJobId);
        },
    };
    let weights = match ParameterMap::decode(payload.as_slice()) {
        Ok(weights) => weights,
        Err(e) => {
            return Err(e);
        },
    };
    Ok(Some(Command::SetFitResult { job_id, addr, weights }))
}

} // verus!
