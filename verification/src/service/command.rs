use vstd::prelude::*;
use crate::error::Error;
use crate::parameters::{encoded, ParameterMap};

verus! {

/// What a training call answers, given what the run came to: the final
/// weights as bytes, or the failure of the run, or the failure to encode.
pub fn train_response(outcome: Result<ParameterMap, Error>) -> (r: Result<Vec<u8>, Error>)
    ensures
        match outcome {
            Ok(weights) => match encoded(weights@) {
                Some(bytes) => r is Ok && r->Ok_0@ == bytes,
                None => r == Err::<Vec<u8>, Error>(Error::EncodeError),
            },
            Err(e) => r == Err::<Vec<u8>, Error>(e),
        },
{
    match outcome {
        Ok(weights) => weights.encode(),
        Err(e) => Err(e),
    }
}

} // verus!
