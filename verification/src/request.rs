//! What is asked of the runtime, and the shape of a query's progress.

use vstd::prelude::*;

use crate::error::{recv_runtime, Error, Reply};
use crate::types::{
    BlockHash, DisputeProof, OpaqueKeyOwnershipProof, SessionIndex, ValidationCodeHash, ValidatorId,
};

verus! {

/// A call of the runtime API.
#[derive(Debug, PartialEq, Eq)]
pub enum RuntimeApiRequest {
    /// The session index expected at a child of the block.
    SessionIndexForChild,
    /// The session info of a session, if it is stored.
    SessionInfo(SessionIndex),
    /// The states of all availability cores.
    AvailabilityCores,
    /// The validator groups, and how they rotate.
    ValidatorGroups,
    /// The candidate events of the block.
    CandidateEvents,
    /// The votes that the chain has recorded.
    FetchOnChainVotes,
    /// The validation code with a hash.
    ValidationCodeByHash(ValidationCodeHash),
    /// The slashes that are still to be applied.
    UnappliedSlashes,
    /// A proof that a key belongs to a validator.
    KeyOwnershipProof(ValidatorId),
    /// The report of a dispute lost in a past session.
    SubmitReportDisputeLost(DisputeProof, OpaqueKeyOwnershipProof),
    /// The parameters of asynchronous backing.
    StagingAsyncBackingParams,
    /// The number of backing votes that a candidate needs.
    MinimumBackingVotes(SessionIndex),
}

/// A call of the runtime API in the state of a block.
#[derive(Debug, PartialEq, Eq)]
pub struct RuntimeApiMessage {
    /// The block.
    pub relay_parent: BlockHash,
    /// The call.
    pub request: RuntimeApiRequest,
}

/// Where a query stands.
#[derive(Debug, PartialEq, Eq)]
pub enum Step<T> {
    /// The message must be sent and its reply handed back.
    Ask(RuntimeApiMessage),
    /// The query is over.
    Done(T),
}

/// Where a query stands that sends one message and passes the reply on.
pub open spec fn asked_once<V>(
    relay_parent: BlockHash,
    request: RuntimeApiRequest,
    reply: Option<Reply<V>>,
) -> Step<Result<V, Error>> {
    match reply {
        None => Step::Ask(RuntimeApiMessage { relay_parent, request }),
        Some(reply) => Step::Done(reply.outcome()),
    }
}

/// One message, whose reply is the answer.
pub fn ask_once<V>(
    relay_parent: BlockHash,
    request: RuntimeApiRequest,
    reply: Option<Reply<V>>,
) -> (step: Step<Result<V, Error>>)
    ensures
        step == asked_once(relay_parent, request, reply),
{
    match reply {
        None => Step::Ask(RuntimeApiMessage { relay_parent, request }),
        Some(reply) => Step::Done(recv_runtime(reply)),
    }
}

} // verus!
