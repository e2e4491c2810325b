//! Queries that need nothing but one reply of the runtime.

use vstd::prelude::*;

use crate::error::{Error, Reply};
use crate::request::{ask_once, asked_once, RuntimeApiRequest, Step};
use crate::types::{
    BlockHash, CandidateHash, CoreState, DisputeProof, OpaqueKeyOwnershipProof, SessionIndex,
    ValidationCodeHash, ValidatorId,
};

verus! {

/// The occupants of the occupied cores, in the order of the cores.
pub open spec fn occupied<OccupiedCore, ScheduledCore>(
    cores: Seq<CoreState<OccupiedCore, ScheduledCore>>,
) -> Seq<OccupiedCore> {
    cores.filter(|core: CoreState<OccupiedCore, ScheduledCore>| core is Occupied).map_values(
        |core: CoreState<OccupiedCore, ScheduledCore>| core->Occupied_0,
    )
}

/// The states of the availability cores.
pub fn get_availability_cores<OccupiedCore, ScheduledCore>(
    relay_parent: BlockHash,
    reply: Option<Reply<Vec<CoreState<OccupiedCore, ScheduledCore>>>>,
) -> (step: Step<Result<Vec<CoreState<OccupiedCore, ScheduledCore>>, Error>>)
    ensures
        step == asked_once(relay_parent, RuntimeApiRequest::AvailabilityCores, reply),
{
    ask_once(relay_parent, RuntimeApiRequest::AvailabilityCores, reply)
}

/// One more core adds its occupant, if it has one.
proof fn lemma_occupied_push<OccupiedCore, ScheduledCore>(
    cores: Seq<CoreState<OccupiedCore, ScheduledCore>>,
    core: CoreState<OccupiedCore, ScheduledCore>,
)
    ensures
        occupied(cores.push(core)) == match core {
            CoreState::Occupied(occupant) => occupied(cores).push(occupant),
            _ => occupied(cores),
        },
{
    reveal(Seq::filter);
    assert(cores.push(core).drop_last() =~= cores);
    assert(occupied(cores.push(core)) =~= match core {
        CoreState::Occupied(occupant) => occupied(cores).push(occupant),
        _ => occupied(cores),
    });
}

/// Where the occupants stand: the positions of the occupied cores, in their order.
pub proof fn lemma_occupied_positions<OccupiedCore, ScheduledCore>(
    cores: Seq<CoreState<OccupiedCore, ScheduledCore>>,
) -> (at: Seq<int>)
    ensures
        at.len() == occupied(cores).len(),
        forall|k: int|
            0 <= k < at.len() ==> 0 <= #[trigger] at[k] < cores.len() && cores[at[k]]
                == CoreState::<OccupiedCore, ScheduledCore>::Occupied(occupied(cores)[k]),
        forall|j: int, k: int| 0 <= j < k < at.len() ==> #[trigger] at[j] < #[trigger] at[k],
        forall|i: int|
            0 <= i < cores.len() && (#[trigger] cores[i]) is Occupied ==> at.contains(i),
    decreases cores.len(),
{
    if cores.len() == 0 {
        assert(occupied(cores) =~= Seq::empty()) by {
            reveal(Seq::filter);
        }
        Seq::empty()
    } else {
        let front = cores.drop_last();
        let core = cores.last();
        let n = front.len() as int;
        let before = lemma_occupied_positions(front);
        lemma_occupied_push(front, core);
        assert(front.push(core) =~= cores);
        let at = if core is Occupied {
            before.push(n)
        } else {
            before
        };
        assert forall|k: int| 0 <= k < at.len() implies 0 <= #[trigger] at[k] < cores.len()
            && cores[at[k]] == CoreState::<OccupiedCore, ScheduledCore>::Occupied(
            occupied(cores)[k],
        ) by {
            if k < before.len() {
                assert(at[k] == before[k]);
                assert(cores[at[k]] == front[before[k]]);
            }
        }
        assert forall|j: int, k: int| 0 <= j < k < at.len() implies #[trigger] at[j]
            < #[trigger] at[k] by {
            assert(at[j] == before[j]);
            if k < before.len() {
                assert(at[k] == before[k]);
            }
        }
        assert forall|i: int|
            0 <= i < cores.len() && (#[trigger] cores[i]) is Occupied implies at.contains(i) by {
            if i < n {
                assert(front[i] is Occupied);
                let k = choose|k: int| 0 <= k < before.len() && before[k] == i;
                assert(at[k] == i);
            } else {
                assert(at[at.len() - 1] == i);
            }
        }
        at
    }
}

/// The occupants among the cores.
pub fn occupied_cores<OccupiedCore, ScheduledCore>(
    cores: Vec<CoreState<OccupiedCore, ScheduledCore>>,
) -> (occupants: Vec<OccupiedCore>)
    ensures
        occupants@ == occupied(cores@),
{
    let ghost all = cores@;
    let mut occupants: Vec<OccupiedCore> = Vec::new();
    assert(occupied(all.take(0)) =~= Seq::empty()) by {
        reveal(Seq::filter);
    }
    for core in iter: cores
        invariant
            iter.seq() == all,
            occupants@ == occupied(all.take(iter.index() as int)),
    {
        proof {
            let i = iter.index() as int;
            lemma_occupied_push(all.take(i), core);
            assert(all.take(i).push(core) =~= all.take(i + 1));
        }
        if let CoreState::Occupied(occupant) = core {
            occupants.push(occupant);
        }
    }
    assert(all.take(all.len() as int) =~= all);
    occupants
}

/// The occupants of the availability cores.
pub fn get_occupied_cores<OccupiedCore, ScheduledCore>(
    relay_parent: BlockHash,
    reply: Option<Reply<Vec<CoreState<OccupiedCore, ScheduledCore>>>>,
) -> (step: Step<Result<Vec<OccupiedCore>, Error>>)
    ensures
        match asked_once(relay_parent, RuntimeApiRequest::AvailabilityCores, reply) {
            Step::Ask(message) => step == Step::<Result<Vec<OccupiedCore>, Error>>::Ask(message),
            Step::Done(Err(error)) => step == Step::<Result<Vec<OccupiedCore>, Error>>::Done(
                Err(error),
            ),
            Step::Done(Ok(cores)) => step matches Step::Done(Ok(occupants)) && occupants@
                == occupied(cores@),
        },
{
    match get_availability_cores(relay_parent, reply) {
        Step::Ask(message) => Step::Ask(message),
        Step::Done(Err(error)) => Step::Done(Err(error)),
        Step::Done(Ok(cores)) => Step::Done(Ok(occupied_cores(cores))),
    }
}

/// How the validator groups rotate.
///
/// The groups themselves come along and are dropped.
pub fn get_group_rotation_info<ValidatorGroups, GroupRotationInfo>(
    relay_parent: BlockHash,
    reply: Option<Reply<(ValidatorGroups, GroupRotationInfo)>>,
) -> (step: Step<Result<GroupRotationInfo, Error>>)
    ensures
        match asked_once(relay_parent, RuntimeApiRequest::ValidatorGroups, reply) {
            Step::Ask(message) => step == Step::<Result<GroupRotationInfo, Error>>::Ask(message),
            Step::Done(Err(error)) => step == Step::<Result<GroupRotationInfo, Error>>::Done(
                Err(error),
            ),
            Step::Done(Ok((_, info))) => step == Step::<Result<GroupRotationInfo, Error>>::Done(
                Ok(info),
            ),
        },
{
    match ask_once(relay_parent, RuntimeApiRequest::ValidatorGroups, reply) {
        Step::Ask(message) => Step::Ask(message),
        Step::Done(Err(error)) => Step::Done(Err(error)),
        Step::Done(Ok((_, info))) => Step::Done(Ok(info)),
    }
}

/// The candidate events of a block.
pub fn get_candidate_events<CandidateEvent>(
    relay_parent: BlockHash,
    reply: Option<Reply<Vec<CandidateEvent>>>,
) -> (step: Step<Result<Vec<CandidateEvent>, Error>>)
    ensures
        step == asked_once(relay_parent, RuntimeApiRequest::CandidateEvents, reply),
{
    ask_once(relay_parent, RuntimeApiRequest::CandidateEvents, reply)
}

/// The votes that the chain has recorded.
pub fn get_on_chain_votes<ScrapedOnChainVotes>(
    relay_parent: BlockHash,
    reply: Option<Reply<Option<ScrapedOnChainVotes>>>,
) -> (step: Step<Result<Option<ScrapedOnChainVotes>, Error>>)
    ensures
        step == asked_once(relay_parent, RuntimeApiRequest::FetchOnChainVotes, reply),
{
    ask_once(relay_parent, RuntimeApiRequest::FetchOnChainVotes, reply)
}

/// The validation code with a hash.
pub fn get_validation_code_by_hash<ValidationCode>(
    relay_parent: BlockHash,
    validation_code_hash: ValidationCodeHash,
    reply: Option<Reply<Option<ValidationCode>>>,
) -> (step: Step<Result<Option<ValidationCode>, Error>>)
    ensures
        step == asked_once(
            relay_parent,
            RuntimeApiRequest::ValidationCodeByHash(validation_code_hash),
            reply,
        ),
{
    ask_once(relay_parent, RuntimeApiRequest::ValidationCodeByHash(validation_code_hash), reply)
}

/// The slashes that are still to be applied.
pub fn get_unapplied_slashes<PendingSlashes>(
    relay_parent: BlockHash,
    reply: Option<Reply<Vec<(SessionIndex, CandidateHash, PendingSlashes)>>>,
) -> (step: Step<Result<Vec<(SessionIndex, CandidateHash, PendingSlashes)>, Error>>)
    ensures
        step == asked_once(relay_parent, RuntimeApiRequest::UnappliedSlashes, reply),
{
    ask_once(relay_parent, RuntimeApiRequest::UnappliedSlashes, reply)
}

/// A proof that a key belongs to a validator.
///
/// `relay_parent` has to lie in the session of the validator set in question.
pub fn key_ownership_proof(
    relay_parent: BlockHash,
    validator_id: ValidatorId,
    reply: Option<Reply<Option<OpaqueKeyOwnershipProof>>>,
) -> (step: Step<Result<Option<OpaqueKeyOwnershipProof>, Error>>)
    ensures
        step == asked_once(
            relay_parent,
            RuntimeApiRequest::KeyOwnershipProof(validator_id),
            reply,
        ),
{
    ask_once(relay_parent, RuntimeApiRequest::KeyOwnershipProof(validator_id), reply)
}

/// Reports a dispute lost in a past session, so that the loser is slashed.
pub fn submit_report_dispute_lost(
    relay_parent: BlockHash,
    dispute_proof: DisputeProof,
    key_ownership_proof: OpaqueKeyOwnershipProof,
    reply: Option<Reply<Option<()>>>,
) -> (step: Step<Result<Option<()>, Error>>)
    ensures
        step == asked_once(
            relay_parent,
            RuntimeApiRequest::SubmitReportDisputeLost(dispute_proof, key_ownership_proof),
            reply,
        ),
{
    ask_once(
        relay_parent,
        RuntimeApiRequest::SubmitReportDisputeLost(dispute_proof, key_ownership_proof),
        reply,
    )
}

} // verus!
