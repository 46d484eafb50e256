use vstd::prelude::*;
use crate::address::WorkerAddr;
use crate::job_id::JobId;

verus! {

/// What can go wrong in the coordinator.
#[derive(Clone, Copy, Debug, PartialEq, Eq, Structural)]
pub enum Error {
    /// The job table holds no job with this identifier.
    JobNotFound { job_id: JobId },
    /// The identifier drawn for a new job is that of a job in the table.
    JobExists { job_id: JobId },
    /// A reply arrived from a worker that no request of the job waits for.
    NoPendingTask { addr: WorkerAddr },
    /// The job was created while no worker was registered.
    WorkerUnavailable { job_id: JobId },
    /// The outbound channel to a worker is closed.
    SendFailed { addr: WorkerAddr },
    /// The waiter of a pending request was dropped before the reply was
    /// handed over.
    ChannelClosed { addr: WorkerAddr },
    /// The bytes of a message hold no parameter map.
    DecodeError,
    /// The job identifier of a message is no UUID.
    InvalidJobId,
    /// A parameter map could not be written as bytes.
    EncodeError,
    /// Two replies carry tensors for one name that differ in element type or
    /// in shape.
    IncompatibleTensors,
    /// The training run was handed an event that it was not waiting for.
    UnexpectedEvent,
}

/// Failure codes of the transport.
#[derive(Clone, Copy, Debug, PartialEq, Eq, Structural)]
pub enum StatusCode {
    NotFound,
    InvalidArgument,
    Internal,
}

impl Error {
    /// The failure code under which the transport reports this error: an
    /// unknown job is not found, what a peer sent wrongly is an invalid
    /// argument, and everything else is internal.
    pub open spec fn spec_status_code(self) -> StatusCode {
        match self {
            Error::JobNotFound { .. } => StatusCode::NotFound,
            Error::DecodeError => StatusCode::InvalidArgument,
            Error::InvalidJobId => StatusCode::InvalidArgument,
            _ => StatusCode::Internal,
        }
    }

    /// The failure code under which the transport reports this error.
    #[verifier::when_used_as_spec(spec_status_code)]
    pub fn status_code(self) -> (code: StatusCode)
        ensures
            code == self.spec_status_code(),
    {
        match self {
            Error::JobNotFound { .. } => StatusCode::NotFound,
            Error::DecodeError => StatusCode::InvalidArgument,
            Error::InvalidJobId => StatusCode::InvalidArgument,
            _ => StatusCode::Internal,
        }
    }
}

} // verus!
