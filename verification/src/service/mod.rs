//! What the transport's handlers compute between receiving a call and
//! handing it to the state owner.

pub mod command;
pub mod publisher;
