//! Coordinator core of a federated-training system: the registry of connected
//! workers, the jobs with their tables of pending replies, the commands that
//! the state owner serves, and federated averaging of the workers' parameters.

pub mod address;
pub mod archive;
pub mod error;
pub mod job_id;
pub mod message;
pub mod parameters;
pub mod service;
pub mod state;
pub mod strategy;
pub mod tensor;

pub use address::WorkerAddr;
pub use error::{Error, StatusCode};
pub use job_id::JobId;
pub use message::{CoordinatorMessage, MessageModel, WorkerMessage};
pub use parameters::{ParameterMap, ParameterModel};
pub use state::inmemory_state::{InMemoryState, StateModel};
pub use state::job::{Delivery, Dispatch, Job, JobModel, Waiter};
pub use state::worker::Worker;
pub use state::{handle, Command, Outcome};
pub use strategy::fed_avg::{
    average_weights, collect_round, leg_outcome, FedAvg, FitAction, FitEvent, FitPhase,
};
pub use tensor::{DType, Tensor, TensorModel};
