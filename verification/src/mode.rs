//! What depends on the version of the runtime API.

use vstd::prelude::*;

use crate::error::{Error, Reply, RuntimeApiError};
use crate::request::{ask_once, asked_once, RuntimeApiRequest, Step};
use crate::types::{AsyncBackingParams, BlockHash, SessionIndex};

verus! {

/// How many backing votes a candidate needs where the runtime can not be asked.
pub const LEGACY_MIN_BACKING_VOTES: u32 = 2;

/// The prospective parachains mode of a relay parent, as the version of the runtime API
/// determines it.
#[derive(Clone, Copy, Debug, PartialEq, Eq, Structural)]
pub enum ProspectiveParachainsMode {
    /// The runtime API knows no parameters of asynchronous backing: no prospective parachains.
    Disabled,
    /// Prospective parachains.
    Enabled {
        /// How many para blocks may lie between the para head in a relay parent and a new
        /// candidate. This keeps nodes from building arbitrarily long chains and spamming
        /// other validators.
        max_candidate_depth: usize,
        /// How many ancestors of a relay parent candidates may be built on.
        allowed_ancestry_len: usize,
    },
}

impl ProspectiveParachainsMode {
    /// Whether the mode is enabled.
    pub fn is_enabled(&self) -> (enabled: bool)
        ensures
            enabled == (self is Enabled),
    {
        matches!(self, ProspectiveParachainsMode::Enabled { .. })
    }
}

/// Whether a query failed for the sole reason that the runtime has no such function.
pub open spec fn not_supported<V>(outcome: Result<V, Error>) -> bool {
    outcome matches Err(Error::RuntimeRequest(RuntimeApiError::NotSupported { .. }))
}

/// The mode that the runtime's parameters, or its lack of them, stand for.
pub open spec fn mode_for(outcome: Result<AsyncBackingParams, Error>) -> Result<
    ProspectiveParachainsMode,
    Error,
> {
    if not_supported(outcome) {
        Ok(ProspectiveParachainsMode::Disabled)
    } else {
        match outcome {
            Ok(params) => Ok(
                ProspectiveParachainsMode::Enabled {
                    max_candidate_depth: params.max_candidate_depth as usize,
                    allowed_ancestry_len: params.allowed_ancestry_len as usize,
                },
            ),
            Err(error) => Err(error),
        }
    }
}

/// The number of backing votes that the runtime asks for, or the legacy number where it has
/// no say.
pub open spec fn votes_for(outcome: Result<u32, Error>) -> Result<u32, Error> {
    if not_supported(outcome) {
        Ok(LEGACY_MIN_BACKING_VOTES)
    } else {
        outcome
    }
}

/// The prospective parachains mode of a relay parent.
pub fn prospective_parachains_mode(
    relay_parent: BlockHash,
    reply: Option<Reply<AsyncBackingParams>>,
) -> (step: Step<Result<ProspectiveParachainsMode, Error>>)
    ensures
        match asked_once(relay_parent, RuntimeApiRequest::StagingAsyncBackingParams, reply) {
            Step::Ask(message) => step == Step::<
                Result<ProspectiveParachainsMode, Error>,
            >::Ask(message),
            Step::Done(outcome) => step == Step::Done(mode_for(outcome)),
        },
{
    match ask_once(relay_parent, RuntimeApiRequest::StagingAsyncBackingParams, reply) {
        Step::Ask(message) => Step::Ask(message),
        Step::Done(Err(Error::RuntimeRequest(RuntimeApiError::NotSupported { .. }))) => Step::Done(
            Ok(ProspectiveParachainsMode::Disabled),
        ),
        Step::Done(Err(error)) => Step::Done(Err(error)),
        Step::Done(Ok(params)) => Step::Done(
            Ok(
                ProspectiveParachainsMode::Enabled {
                    max_candidate_depth: params.max_candidate_depth as usize,
                    allowed_ancestry_len: params.allowed_ancestry_len as usize,
                },
            ),
        ),
    }
}

/// The number of backing votes that a candidate needs in a session.
///
/// A runtime that can not be asked wants the legacy number.
pub fn request_min_backing_votes(
    parent: BlockHash,
    session_index: SessionIndex,
    reply: Option<Reply<u32>>,
) -> (step: Step<Result<u32, Error>>)
    ensures
        match asked_once(parent, RuntimeApiRequest::MinimumBackingVotes(session_index), reply) {
            Step::Ask(message) => step == Step::<Result<u32, Error>>::Ask(message),
            Step::Done(outcome) => step == Step::Done(votes_for(outcome)),
        },
{
    match ask_once(parent, RuntimeApiRequest::MinimumBackingVotes(session_index), reply) {
        Step::Done(Err(Error::RuntimeRequest(RuntimeApiError::NotSupported { .. }))) => Step::Done(
            Ok(LEGACY_MIN_BACKING_VOTES),
        ),
        step => step,
    }
}

} // verus!
