//! What can go wrong in a runtime query, and how a reply is read.

use vstd::prelude::*;

use crate::types::SessionIndex;

verus! {

/// The runtime API's own failures.
#[derive(Debug, PartialEq, Eq)]
pub enum RuntimeApiError {
    /// The runtime API function failed.
    Execution {
        /// The function that was called.
        runtime_api_name: String,
        /// What it reported.
        source: String,
    },
    /// The runtime has no such function.
    NotSupported {
        /// The function that was asked for.
        runtime_api_name: String,
    },
}

/// Why a query ended without an answer.
#[derive(Debug, PartialEq, Eq)]
pub enum Error {
    /// The runtime API subsystem is gone: the node is shutting down.
    RuntimeRequestCanceled,
    /// The runtime API failed, for instance because the block was pruned.
    RuntimeRequest(RuntimeApiError),
    /// There is no session with that index.
    NoSuchSession(SessionIndex),
}

/// What comes back on the channel that was handed out with a request.
#[derive(Debug, PartialEq, Eq)]
pub enum Reply<V> {
    /// The other side dropped the channel.
    Canceled,
    /// The runtime answered.
    Answered(Result<V, RuntimeApiError>),
}

impl<V> Reply<V> {
    /// The outcome that a reply stands for.
    pub open spec fn outcome(self) -> Result<V, Error> {
        match self {
            Reply::Canceled => Err(Error::RuntimeRequestCanceled),
            Reply::Answered(Err(error)) => Err(Error::RuntimeRequest(error)),
            Reply::Answered(Ok(value)) => Ok(value),
        }
    }
}

/// Reads a reply: a dropped channel and a failed call each become an [`Error`].
pub fn recv_runtime<V>(reply: Reply<V>) -> (outcome: Result<V, Error>)
    ensures
        outcome == reply.outcome(),
{
    match reply {
        Reply::Canceled => Err(Error::RuntimeRequestCanceled),
        Reply::Answered(Err(error)) => Err(Error::RuntimeRequest(error)),
        Reply::Answered(Ok(value)) => Ok(value),
    }
}

} // verus!
