//! What each function is for, said of the function itself: whatever a call can give back, in
//! terms of what it was given.

use vstd::prelude::*;

use crate::cache::{
    index_entries, index_limit, info_entries, info_limit, SessionIndexCache, SessionInfoCache,
};
use crate::error::{recv_runtime, Error, Reply, RuntimeApiError};
use crate::history::lemma_info_is_kept;
use crate::info::{
    caches_grew, info_call, info_step, lemma_info_call_grows, lemma_session_call_grows,
    session_call, signature_step, with_index, without_index, Config, RuntimeInfo, SessionEvent,
    SessionInfoStep, SessionStep, SignatureStep,
};
use crate::keystore::{has_keys, Keystore};
use crate::lru::{
    first_at, has_key, lemma_position_unique, lemma_put, lemma_stored, lemma_touched, lookup,
    position, put, stored, touched,
};
use crate::mode::{
    prospective_parachains_mode, request_min_backing_votes, ProspectiveParachainsMode,
};
use crate::queries::{
    get_availability_cores, get_candidate_events, get_group_rotation_info, get_occupied_cores,
    get_on_chain_votes, get_unapplied_slashes, get_validation_code_by_hash, key_ownership_proof,
    lemma_occupied_positions, occupied_cores, submit_report_dispute_lost,
};
use crate::request::{ask_once, RuntimeApiMessage, RuntimeApiRequest, Step};
use crate::signature::{
    check_signature, into_checked, payload_data, signature_verifies, signing_data, Signed,
    UncheckedSigned,
};
use crate::types::{
    AsyncBackingParams, BlockHash, CandidateHash, CoreState, DisputeProof, GroupIndex,
    OpaqueKeyOwnershipProof, SessionIndex, SessionInfo, ValidationCodeHash, ValidatorId,
    ValidatorIndex,
};
use crate::validator::{
    describes, find_confirmed, first_confirmed, first_group, group_of, index_at, is_our_index,
    our_group, our_index, validator_info, ExtendedSessionInfo, ValidatorInfo,
};

verus! {

/// A reply is read as it came: what the runtime answered is the outcome, its failure is the
/// error, and a dropped channel is an error of its own.
pub proof fn a_reply_is_read_as_it_came<V>(reply: Reply<V>, outcome: Result<V, Error>)
    requires
        call_ensures(recv_runtime::<V>, (reply,), outcome),
    ensures
        match reply {
            Reply::Answered(Ok(value)) => outcome == Ok::<V, Error>(value),
            Reply::Answered(Err(error)) => outcome == Err::<V, Error>(
                Error::RuntimeRequest(error),
            ),
            Reply::Canceled => outcome == Err::<V, Error>(Error::RuntimeRequestCanceled),
        },
{
}

/// No two replies are read alike.
pub proof fn replies_are_told_apart<V>(
    reply: Reply<V>,
    other: Reply<V>,
    outcome: Result<V, Error>,
)
    requires
        call_ensures(recv_runtime::<V>, (reply,), outcome),
        call_ensures(recv_runtime::<V>, (other,), outcome),
    ensures
        reply == other,
{
}

/// A query of one request asks for exactly what it was given, in the state of the block that it
/// was given, and ends with the reply.
pub proof fn one_request_is_made_and_its_reply_passed_on<V>(
    relay_parent: BlockHash,
    request: RuntimeApiRequest,
    reply: Option<Reply<V>>,
    step: Step<Result<V, Error>>,
)
    requires
        call_ensures(ask_once::<V>, (relay_parent, request, reply), step),
    ensures
        match reply {
            None => step matches Step::Ask(message) && message == (
                RuntimeApiMessage { relay_parent, request }
            ),
            Some(Reply::Answered(Ok(value))) => step matches Step::Done(Ok(given)) && given
                == value,
            Some(Reply::Answered(Err(error))) => step matches Step::Done(Err(failure)) && failure
                == Error::RuntimeRequest(error),
            Some(Reply::Canceled) => step matches Step::Done(Err(failure)) && failure
                == Error::RuntimeRequestCanceled,
        },
{
}

/// The availability cores are those that the runtime has in the state of the block.
pub proof fn the_cores_are_the_runtimes<OccupiedCore, ScheduledCore>(
    relay_parent: BlockHash,
    reply: Option<Reply<Vec<CoreState<OccupiedCore, ScheduledCore>>>>,
    step: Step<Result<Vec<CoreState<OccupiedCore, ScheduledCore>>, Error>>,
)
    requires
        call_ensures(
            get_availability_cores::<OccupiedCore, ScheduledCore>,
            (relay_parent, reply),
            step,
        ),
    ensures
        match reply {
            None => step matches Step::Ask(message) && message == (
                RuntimeApiMessage { relay_parent, request: RuntimeApiRequest::AvailabilityCores }
            ),
            Some(Reply::Answered(Ok(value))) => step matches Step::Done(Ok(given)) && given
                == value,
            Some(Reply::Answered(Err(error))) => step matches Step::Done(Err(failure)) && failure
                == Error::RuntimeRequest(error),
            Some(Reply::Canceled) => step matches Step::Done(Err(failure)) && failure
                == Error::RuntimeRequestCanceled,
        },
{
}

/// The candidate events are those that the runtime has for the block.
pub proof fn the_candidate_events_are_the_runtimes<CandidateEvent>(
    relay_parent: BlockHash,
    reply: Option<Reply<Vec<CandidateEvent>>>,
    step: Step<Result<Vec<CandidateEvent>, Error>>,
)
    requires
        call_ensures(get_candidate_events::<CandidateEvent>, (relay_parent, reply), step),
    ensures
        match reply {
            None => step matches Step::Ask(message) && message == (
                RuntimeApiMessage { relay_parent, request: RuntimeApiRequest::CandidateEvents }
            ),
            Some(Reply::Answered(Ok(value))) => step matches Step::Done(Ok(given)) && given
                == value,
            Some(Reply::Answered(Err(error))) => step matches Step::Done(Err(failure)) && failure
                == Error::RuntimeRequest(error),
            Some(Reply::Canceled) => step matches Step::Done(Err(failure)) && failure
                == Error::RuntimeRequestCanceled,
        },
{
}

/// The recorded votes are those that the runtime has for the block.
pub proof fn the_votes_are_the_runtimes<ScrapedOnChainVotes>(
    relay_parent: BlockHash,
    reply: Option<Reply<Option<ScrapedOnChainVotes>>>,
    step: Step<Result<Option<ScrapedOnChainVotes>, Error>>,
)
    requires
        call_ensures(get_on_chain_votes::<ScrapedOnChainVotes>, (relay_parent, reply), step),
    ensures
        match reply {
            None => step matches Step::Ask(message) && message == (
                RuntimeApiMessage { relay_parent, request: RuntimeApiRequest::FetchOnChainVotes }
            ),
            Some(Reply::Answered(Ok(value))) => step matches Step::Done(Ok(given)) && given
                == value,
            Some(Reply::Answered(Err(error))) => step matches Step::Done(Err(failure)) && failure
                == Error::RuntimeRequest(error),
            Some(Reply::Canceled) => step matches Step::Done(Err(failure)) && failure
                == Error::RuntimeRequestCanceled,
        },
{
}

/// The validation code is what the runtime has under exactly the hash that was given.
pub proof fn the_code_is_the_one_with_the_hash<ValidationCode>(
    relay_parent: BlockHash,
    hash: ValidationCodeHash,
    reply: Option<Reply<Option<ValidationCode>>>,
    step: Step<Result<Option<ValidationCode>, Error>>,
)
    requires
        call_ensures(
            get_validation_code_by_hash::<ValidationCode>,
            (relay_parent, hash, reply),
            step,
        ),
    ensures
        match reply {
            None => step matches Step::Ask(message) && message == (
                RuntimeApiMessage {
                    relay_parent,
                    request: RuntimeApiRequest::ValidationCodeByHash(hash),
                }
            ),
            Some(Reply::Answered(Ok(value))) => step matches Step::Done(Ok(given)) && given
                == value,
            Some(Reply::Answered(Err(error))) => step matches Step::Done(Err(failure)) && failure
                == Error::RuntimeRequest(error),
            Some(Reply::Canceled) => step matches Step::Done(Err(failure)) && failure
                == Error::RuntimeRequestCanceled,
        },
{
}

/// The unapplied slashes are those that the runtime has in the state of the block.
pub proof fn the_slashes_are_the_runtimes<PendingSlashes>(
    relay_parent: BlockHash,
    reply: Option<Reply<Vec<(SessionIndex, CandidateHash, PendingSlashes)>>>,
    step: Step<Result<Vec<(SessionIndex, CandidateHash, PendingSlashes)>, Error>>,
)
    requires
        call_ensures(get_unapplied_slashes::<PendingSlashes>, (relay_parent, reply), step),
    ensures
        match reply {
            None => step matches Step::Ask(message) && message == (
                RuntimeApiMessage { relay_parent, request: RuntimeApiRequest::UnappliedSlashes }
            ),
            Some(Reply::Answered(Ok(value))) => step matches Step::Done(Ok(given)) && given
                == value,
            Some(Reply::Answered(Err(error))) => step matches Step::Done(Err(failure)) && failure
                == Error::RuntimeRequest(error),
            Some(Reply::Canceled) => step matches Step::Done(Err(failure)) && failure
                == Error::RuntimeRequestCanceled,
        },
{
}

/// The key ownership proof is what the runtime has for exactly the validator that was given.
pub proof fn the_key_is_proved_for_its_validator(
    relay_parent: BlockHash,
    validator_id: ValidatorId,
    reply: Option<Reply<Option<OpaqueKeyOwnershipProof>>>,
    step: Step<Result<Option<OpaqueKeyOwnershipProof>, Error>>,
)
    requires
        call_ensures(key_ownership_proof, (relay_parent, validator_id, reply), step),
    ensures
        match reply {
            None => step matches Step::Ask(message) && message == (
                RuntimeApiMessage {
                    relay_parent,
                    request: RuntimeApiRequest::KeyOwnershipProof(validator_id),
                }
            ),
            Some(Reply::Answered(Ok(value))) => step matches Step::Done(Ok(given)) && given
                == value,
            Some(Reply::Answered(Err(error))) => step matches Step::Done(Err(failure)) && failure
                == Error::RuntimeRequest(error),
            Some(Reply::Canceled) => step matches Step::Done(Err(failure)) && failure
                == Error::RuntimeRequestCanceled,
        },
{
}

/// A lost dispute is reported with exactly the proofs that were given.
pub proof fn a_lost_dispute_is_reported_as_it_is(
    relay_parent: BlockHash,
    dispute_proof: DisputeProof,
    key_proof: OpaqueKeyOwnershipProof,
    reply: Option<Reply<Option<()>>>,
    step: Step<Result<Option<()>, Error>>,
)
    requires
        call_ensures(
            submit_report_dispute_lost,
            (relay_parent, dispute_proof, key_proof, reply),
            step,
        ),
    ensures
        match reply {
            None => step matches Step::Ask(message) && message == (
                RuntimeApiMessage {
                    relay_parent,
                    request: RuntimeApiRequest::SubmitReportDisputeLost(dispute_proof, key_proof),
                }
            ),
            Some(Reply::Answered(Ok(value))) => step matches Step::Done(Ok(given)) && given
                == value,
            Some(Reply::Answered(Err(error))) => step matches Step::Done(Err(failure)) && failure
                == Error::RuntimeRequest(error),
            Some(Reply::Canceled) => step matches Step::Done(Err(failure)) && failure
                == Error::RuntimeRequestCanceled,
        },
{
}

/// No two reports of lost disputes are sent alike.
pub proof fn reports_are_told_apart(
    relay_parent: BlockHash,
    dispute_proof: DisputeProof,
    key_proof: OpaqueKeyOwnershipProof,
    other_parent: BlockHash,
    other_dispute: DisputeProof,
    other_key: OpaqueKeyOwnershipProof,
    step: Step<Result<Option<()>, Error>>,
)
    requires
        call_ensures(
            submit_report_dispute_lost,
            (relay_parent, dispute_proof, key_proof, None),
            step,
        ),
        call_ensures(
            submit_report_dispute_lost,
            (other_parent, other_dispute, other_key, None),
            step,
        ),
    ensures
        relay_parent == other_parent,
        dispute_proof == other_dispute,
        key_proof == other_key,
{
}

/// The group rotation is what the runtime gives along with the groups, in the state of the
/// block.
pub proof fn the_rotation_is_the_runtimes<ValidatorGroups, GroupRotationInfo>(
    relay_parent: BlockHash,
    reply: Option<Reply<(ValidatorGroups, GroupRotationInfo)>>,
    step: Step<Result<GroupRotationInfo, Error>>,
)
    requires
        call_ensures(
            get_group_rotation_info::<ValidatorGroups, GroupRotationInfo>,
            (relay_parent, reply),
            step,
        ),
    ensures
        match reply {
            None => step == Step::<Result<GroupRotationInfo, Error>>::Ask(
                RuntimeApiMessage { relay_parent, request: RuntimeApiRequest::ValidatorGroups },
            ),
            Some(Reply::Answered(Ok((_, rotation)))) => step == Step::Done(
                Ok::<GroupRotationInfo, Error>(rotation),
            ),
            Some(Reply::Answered(Err(error))) => step == Step::Done(
                Err::<GroupRotationInfo, Error>(Error::RuntimeRequest(error)),
            ),
            Some(Reply::Canceled) => step == Step::Done(
                Err::<GroupRotationInfo, Error>(Error::RuntimeRequestCanceled),
            ),
        },
{
}

/// The occupants are those of the occupied cores, each once and in the order of the cores:
/// `at` says which core each one occupies.
pub proof fn every_occupied_core_has_its_occupant<OccupiedCore, ScheduledCore>(
    cores: Vec<CoreState<OccupiedCore, ScheduledCore>>,
    occupants: Vec<OccupiedCore>,
) -> (at: Seq<int>)
    requires
        call_ensures(occupied_cores::<OccupiedCore, ScheduledCore>, (cores,), occupants),
    ensures
        at.len() == occupants@.len(),
        forall|k: int|
            0 <= k < at.len() ==> 0 <= #[trigger] at[k] < cores@.len() && cores@[at[k]]
                == CoreState::<OccupiedCore, ScheduledCore>::Occupied(occupants@[k]),
        forall|j: int, k: int| 0 <= j < k < at.len() ==> #[trigger] at[j] < #[trigger] at[k],
        forall|i: int|
            0 <= i < cores@.len() && (#[trigger] cores@[i]) is Occupied ==> at.contains(i),
{
    lemma_occupied_positions(cores@)
}

/// The query for the occupied cores asks for the cores and ends with the occupants among those
/// that the runtime gave, each once and in the order of the cores: `at` says which core each
/// one occupies.
pub proof fn the_occupants_are_those_of_the_runtimes_cores<OccupiedCore, ScheduledCore>(
    relay_parent: BlockHash,
    reply: Option<Reply<Vec<CoreState<OccupiedCore, ScheduledCore>>>>,
    step: Step<Result<Vec<OccupiedCore>, Error>>,
) -> (at: Seq<int>)
    requires
        call_ensures(
            get_occupied_cores::<OccupiedCore, ScheduledCore>,
            (relay_parent, reply),
            step,
        ),
    ensures
        match reply {
            None => step == Step::<Result<Vec<OccupiedCore>, Error>>::Ask(
                RuntimeApiMessage { relay_parent, request: RuntimeApiRequest::AvailabilityCores },
            ),
            Some(Reply::Answered(Ok(cores))) => {
                &&& step matches Step::Done(Ok(occupants))
                &&& at.len() == occupants@.len()
                &&& forall|k: int|
                    0 <= k < at.len() ==> 0 <= #[trigger] at[k] < cores@.len() && cores@[at[k]]
                        == CoreState::<OccupiedCore, ScheduledCore>::Occupied(occupants@[k])
                &&& forall|j: int, k: int|
                    0 <= j < k < at.len() ==> #[trigger] at[j] < #[trigger] at[k]
                &&& forall|i: int|
                    0 <= i < cores@.len() && (#[trigger] cores@[i]) is Occupied ==> at.contains(i)
            },
            Some(Reply::Answered(Err(error))) => step == Step::Done(
                Err::<Vec<OccupiedCore>, Error>(Error::RuntimeRequest(error)),
            ),
            Some(Reply::Canceled) => step == Step::Done(
                Err::<Vec<OccupiedCore>, Error>(Error::RuntimeRequestCanceled),
            ),
        },
{
    match reply {
        Some(Reply::Answered(Ok(cores))) => lemma_occupied_positions(cores@),
        _ => Seq::empty(),
    }
}

/// Prospective parachains have the very parameters that the runtime gives, and are disabled
/// exactly where the runtime does not know of them.
pub proof fn the_mode_has_the_runtimes_parameters(
    relay_parent: BlockHash,
    reply: Option<Reply<AsyncBackingParams>>,
    step: Step<Result<ProspectiveParachainsMode, Error>>,
)
    requires
        call_ensures(prospective_parachains_mode, (relay_parent, reply), step),
    ensures
        match reply {
            None => step == Step::<Result<ProspectiveParachainsMode, Error>>::Ask(
                RuntimeApiMessage {
                    relay_parent,
                    request: RuntimeApiRequest::StagingAsyncBackingParams,
                },
            ),
            Some(Reply::Answered(Ok(params))) => {
                &&& step matches Step::Done(
                    Ok(
                        ProspectiveParachainsMode::Enabled {
                            max_candidate_depth,
                            allowed_ancestry_len,
                        },
                    ),
                )
                &&& max_candidate_depth as int == params.max_candidate_depth as int
                &&& allowed_ancestry_len as int == params.allowed_ancestry_len as int
            },
            Some(Reply::Answered(Err(RuntimeApiError::NotSupported { .. }))) => step == Step::Done(
                Ok::<ProspectiveParachainsMode, Error>(ProspectiveParachainsMode::Disabled),
            ),
            Some(Reply::Answered(Err(error))) => step == Step::Done(
                Err::<ProspectiveParachainsMode, Error>(Error::RuntimeRequest(error)),
            ),
            Some(Reply::Canceled) => step == Step::Done(
                Err::<ProspectiveParachainsMode, Error>(Error::RuntimeRequestCanceled),
            ),
        },
{
}

/// A mode is enabled exactly where it is not disabled.
pub proof fn a_mode_is_enabled_or_disabled(mode: ProspectiveParachainsMode, enabled: bool)
    requires
        call_ensures(ProspectiveParachainsMode::is_enabled, (&mode,), enabled),
    ensures
        enabled <==> mode != ProspectiveParachainsMode::Disabled,
{
}

/// The number of backing votes is the runtime's for exactly the session that was given, and
/// two where the runtime can not be asked.
pub proof fn the_vote_count_is_the_runtimes_or_two(
    relay_parent: BlockHash,
    session_index: SessionIndex,
    reply: Option<Reply<u32>>,
    step: Step<Result<u32, Error>>,
)
    requires
        call_ensures(request_min_backing_votes, (relay_parent, session_index, reply), step),
    ensures
        match reply {
            None => step == Step::<Result<u32, Error>>::Ask(
                RuntimeApiMessage {
                    relay_parent,
                    request: RuntimeApiRequest::MinimumBackingVotes(session_index),
                },
            ),
            Some(Reply::Answered(Ok(votes))) => step == Step::Done(Ok::<u32, Error>(votes)),
            Some(Reply::Answered(Err(RuntimeApiError::NotSupported { .. }))) => step == Step::Done(
                Ok::<u32, Error>(2),
            ),
            Some(Reply::Answered(Err(error))) => step == Step::Done(
                Err::<u32, Error>(Error::RuntimeRequest(error)),
            ),
            Some(Reply::Canceled) => step == Step::Done(
                Err::<u32, Error>(Error::RuntimeRequestCanceled),
            ),
        },
{
}

/// A keystore is asked for a validator's own key, filed under `para`, and its answer is the
/// answer.
pub(crate) proof fn the_keystore_is_asked_for_the_validators_key(
    keystore: Keystore,
    validator: ValidatorId,
    answer: bool,
)
    ensures
        keystore.answers(validator, answer) <==> call_ensures(
            has_keys,
            (&keystore, validator.0, [0x70u8, 0x61u8, 0x72u8, 0x61u8]),
            answer,
        ),
        call_ensures(Keystore::holds, (&keystore, validator), answer) ==> keystore.answers(
            validator,
            answer,
        ),
{
    keystore.lemma_answers(validator, answer);
}

/// Whoever is found was confirmed, and all before were denied. Where nobody is found, all were
/// denied. Beyond 32 bits the position wraps.
pub proof fn the_first_confirmed_is_found<F: Fn(ValidatorId) -> bool>(
    confirm: F,
    validators: Vec<ValidatorId>,
    index: Option<ValidatorIndex>,
)
    requires
        call_ensures(find_confirmed::<F>, (confirm, &validators), index),
    ensures
        match index {
            None => forall|j: int|
                0 <= j < validators@.len() ==> call_ensures(
                    confirm,
                    (#[trigger] validators@[j],),
                    false,
                ),
            Some(index) => exists|p: int|
                {
                    &&& 0 <= p < validators@.len()
                    &&& index.0 == p as u32
                    &&& call_ensures(confirm, (#[trigger] validators@[p],), true)
                    &&& forall|j: int|
                        0 <= j < p ==> call_ensures(confirm, (#[trigger] validators@[j],), false)
                },
        },
{
    let answers = |validator: ValidatorId, answer: bool|
        call_ensures(confirm, (validator,), answer);
    let p = choose|p: int|
        index == index_at(validators@, p) && #[trigger] first_confirmed(answers, validators@, p);
    assert forall|j: int| 0 <= j < p implies call_ensures(
        confirm,
        (#[trigger] validators@[j],),
        false,
    ) by {
        assert(answers(validators@[j], false));
    }
    if p < validators@.len() {
        assert(answers(validators@[p], true));
    }
}

/// Our index is that of the first validator whose key the keystore confirms, at whatever
/// position. Without a keystore we have none, and where we have none, the keystore denied every
/// validator. Beyond 32 bits the position wraps.
pub proof fn our_index_is_the_first_that_is_ours(
    keystore: Option<Keystore>,
    validators: Vec<ValidatorId>,
    index: Option<ValidatorIndex>,
)
    requires
        call_ensures(our_index, (&keystore, &validators), index),
    ensures
        match (keystore, index) {
            (None, index) => index is None,
            (Some(keystore), None) => forall|j: int|
                0 <= j < validators@.len() ==> keystore.answers(#[trigger] validators@[j], false),
            (Some(keystore), Some(index)) => exists|p: int|
                {
                    &&& 0 <= p < validators@.len()
                    &&& index.0 == p as u32
                    &&& keystore.answers(#[trigger] validators@[p], true)
                    &&& forall|j: int|
                        0 <= j < p ==> keystore.answers(#[trigger] validators@[j], false)
                },
        },
{
    if let Some(keystore) = keystore {
        lemma_our_index(keystore, validators@, index);
    }
}

/// What is said of our index, in terms of the keystore's answers.
proof fn lemma_our_index(
    keystore: Keystore,
    validators: Seq<ValidatorId>,
    index: Option<ValidatorIndex>,
)
    requires
        is_our_index(Some(keystore), validators, index),
    ensures
        match index {
            None => forall|j: int|
                0 <= j < validators.len() ==> keystore.answers(#[trigger] validators[j], false),
            Some(index) => exists|p: int|
                {
                    &&& 0 <= p < validators.len()
                    &&& index.0 == p as u32
                    &&& keystore.answers(#[trigger] validators[p], true)
                    &&& forall|j: int|
                        0 <= j < p ==> keystore.answers(#[trigger] validators[j], false)
                },
        },
{
    let answers = |validator: ValidatorId, answer: bool| keystore.answers(validator, answer);
    let p = choose|p: int|
        index == index_at(validators, p) && #[trigger] first_confirmed(answers, validators, p);
    assert forall|j: int| 0 <= j < p implies keystore.answers(
        #[trigger] validators[j],
        false,
    ) by {
        assert(answers(validators[j], false));
    }
    if p < validators.len() {
        assert(answers(validators[p], true));
    }
}

/// A validator that the keystore can only confirm makes us a validator.
pub proof fn whoever_is_confirmed_has_an_index(
    info: RuntimeInfo,
    keystore: Keystore,
    validators: Vec<ValidatorId>,
    j: int,
    index: Option<ValidatorIndex>,
)
    requires
        info@.keystore == Some(keystore),
        0 <= j < validators@.len(),
        !keystore.answers(validators@[j], false),
        call_ensures(RuntimeInfo::get_our_index, (&info, &validators), index),
    ensures
        index matches Some(found) && (j <= u32::MAX ==> found.0 <= j),
{
    lemma_our_index(keystore, validators@, index);
    if let Some(found) = index {
        let p = choose|p: int|
            {
                &&& 0 <= p < validators@.len()
                &&& found.0 == p as u32
                &&& keystore.answers(#[trigger] validators@[p], true)
                &&& forall|k: int|
                    0 <= k < p ==> keystore.answers(#[trigger] validators@[k], false)
            };
        assert(p <= j);
    }
}

/// The index that a `RuntimeInfo` has for us is by its own keystore that of the first
/// validator whose key is ours, at whatever position.
pub proof fn our_index_is_by_our_keystore(
    info: RuntimeInfo,
    validators: Vec<ValidatorId>,
    index: Option<ValidatorIndex>,
)
    requires
        call_ensures(RuntimeInfo::get_our_index, (&info, &validators), index),
    ensures
        match (info@.keystore, index) {
            (None, index) => index is None,
            (Some(keystore), None) => forall|j: int|
                0 <= j < validators@.len() ==> keystore.answers(#[trigger] validators@[j], false),
            (Some(keystore), Some(index)) => exists|p: int|
                {
                    &&& 0 <= p < validators@.len()
                    &&& index.0 == p as u32
                    &&& keystore.answers(#[trigger] validators@[p], true)
                    &&& forall|j: int|
                        0 <= j < p ==> keystore.answers(#[trigger] validators@[j], false)
                },
        },
{
    if let Some(keystore) = info@.keystore {
        lemma_our_index(keystore, validators@, index);
    }
}

/// A validator's group is the first that has it, and it has none exactly where no group has
/// it. Beyond 32 bits the position wraps.
pub proof fn the_group_is_the_first_with_the_validator(
    groups: Vec<Vec<ValidatorIndex>>,
    validator: ValidatorIndex,
    group: Option<GroupIndex>,
)
    requires
        call_ensures(our_group, (&groups, validator), group),
    ensures
        match group {
            None => forall|g: int|
                0 <= g < groups@.len() ==> !(#[trigger] groups@[g])@.contains(validator),
            Some(group) => exists|g: int|
                {
                    &&& 0 <= g < groups@.len()
                    &&& group.0 == g as u32
                    &&& (#[trigger] groups@[g])@.contains(validator)
                    &&& forall|h: int|
                        0 <= h < g ==> !(#[trigger] groups@[h])@.contains(validator)
                },
        },
{
    lemma_group(groups@, validator, group);
}

/// What is said of a validator's group, in terms of the groups.
proof fn lemma_group(
    groups: Seq<Vec<ValidatorIndex>>,
    validator: ValidatorIndex,
    group: Option<GroupIndex>,
)
    requires
        group == group_of(groups, validator),
    ensures
        match group {
            None => forall|g: int|
                0 <= g < groups.len() ==> !(#[trigger] groups[g])@.contains(validator),
            Some(group) => exists|g: int|
                {
                    &&& 0 <= g < groups.len()
                    &&& group.0 == g as u32
                    &&& (#[trigger] groups[g])@.contains(validator)
                    &&& forall|h: int|
                        0 <= h < g ==> !(#[trigger] groups[h])@.contains(validator)
                },
        },
{
    if exists|g: int| first_group(groups, validator, g) {
        let g = choose|g: int| first_group(groups, validator, g);
        assert(groups[g]@.contains(validator));
    } else {
        assert forall|g: int| 0 <= g < groups.len() implies !(#[trigger] groups[g])@.contains(
            validator,
        ) by {
            if groups[g]@.contains(validator) {
                lemma_some_group_is_first(groups, validator, g);
            }
        }
    }
}

/// Where a group has a validator, one is the first that has it.
proof fn lemma_some_group_is_first(
    groups: Seq<Vec<ValidatorIndex>>,
    validator: ValidatorIndex,
    g: int,
)
    requires
        0 <= g < groups.len(),
        groups[g]@.contains(validator),
    ensures
        exists|h: int| first_group(groups, validator, h),
    decreases g,
{
    if exists|h: int| 0 <= h < g && (#[trigger] groups[h])@.contains(validator) {
        let h = choose|h: int| 0 <= h < g && (#[trigger] groups[h])@.contains(validator);
        lemma_some_group_is_first(groups, validator, h);
    } else {
        assert(first_group(groups, validator, g));
    }
}

/// Who we are in a session with a given index: that index, and the first group that has it.
pub proof fn we_are_in_the_first_group_with_us(
    session_info: SessionInfo,
    our_index: Option<ValidatorIndex>,
    info: ValidatorInfo,
)
    requires
        call_ensures(validator_info, (&session_info, our_index), info),
    ensures
        info.our_index == our_index,
        our_index is None ==> info.our_group is None,
        our_index matches Some(index) ==> match info.our_group {
            None => forall|g: int|
                0 <= g < session_info.validator_groups@.len()
                    ==> !(#[trigger] session_info.validator_groups@[g])@.contains(index),
            Some(group) => exists|g: int|
                {
                    &&& 0 <= g < session_info.validator_groups@.len()
                    &&& group.0 == g as u32
                    &&& (#[trigger] session_info.validator_groups@[g])@.contains(index)
                    &&& forall|h: int|
                        0 <= h < g
                            ==> !(#[trigger] session_info.validator_groups@[h])@.contains(index)
                },
        },
{
    if let Some(index) = our_index {
        lemma_group(session_info.validator_groups@, index, info.our_group);
    }
}

/// What describes us in a session: the index of the first validator that the keystore
/// confirms, or none where there is no keystore or it denies all of them, and with it the
/// first group that has that index, or none where no group has it.
pub proof fn we_are_who_the_keystore_says(
    keystore: Option<Keystore>,
    session_info: SessionInfo,
    info: ValidatorInfo,
)
    requires
        describes(keystore, session_info, info),
    ensures
        match (keystore, info.our_index) {
            (None, index) => index is None,
            (Some(keystore), None) => forall|j: int|
                0 <= j < session_info.validators@.len() ==> keystore.answers(
                    #[trigger] session_info.validators@[j],
                    false,
                ),
            (Some(keystore), Some(index)) => exists|p: int|
                {
                    &&& 0 <= p < session_info.validators@.len()
                    &&& index.0 == p as u32
                    &&& keystore.answers(#[trigger] session_info.validators@[p], true)
                    &&& forall|j: int|
                        0 <= j < p ==> keystore.answers(
                            #[trigger] session_info.validators@[j],
                            false,
                        )
                },
        },
        info.our_index is None ==> info.our_group is None,
        info.our_index matches Some(index) ==> match info.our_group {
            None => forall|g: int|
                0 <= g < session_info.validator_groups@.len()
                    ==> !(#[trigger] session_info.validator_groups@[g])@.contains(index),
            Some(group) => exists|g: int|
                {
                    &&& 0 <= g < session_info.validator_groups@.len()
                    &&& group.0 == g as u32
                    &&& (#[trigger] session_info.validator_groups@[g])@.contains(index)
                    &&& forall|h: int|
                        0 <= h < g
                            ==> !(#[trigger] session_info.validator_groups@[h])@.contains(index)
                },
        },
{
    if let Some(keystore) = keystore {
        lemma_our_index(keystore, session_info.validators@, info.our_index);
    }
    if let Some(index) = info.our_index {
        lemma_group(session_info.validator_groups@, index, info.our_group);
    }
}

/// Who a `RuntimeInfo` says we are in a session describes us by its own keystore, and where
/// some group has our index, we have a group.
pub proof fn validator_info_describes_us(
    info: RuntimeInfo,
    session_info: SessionInfo,
    found: ValidatorInfo,
)
    requires
        call_ensures(RuntimeInfo::get_validator_info, (&info, &session_info), found),
    ensures
        describes(info@.keystore, session_info, found),
        found.our_index matches Some(index) ==> {
            found.our_group is Some <==> exists|g: int|
                0 <= g < session_info.validator_groups@.len()
                    && (#[trigger] session_info.validator_groups@[g])@.contains(index)
        },
{
    we_are_who_the_keystore_says(info@.keystore, session_info, found);
}

/// The signed data is the payload, then the four bytes of the session's number, the lowest
/// first, then the block.
pub proof fn signed_data_is_payload_session_and_block(
    encoded: Vec<u8>,
    session_index: SessionIndex,
    parent_hash: BlockHash,
    data: Vec<u8>,
)
    requires
        call_ensures(payload_data, (&encoded, session_index, &parent_hash), data),
    ensures
        data@ == encoded@ + seq![
            (session_index % 256) as u8,
            (session_index / 256 % 256) as u8,
            (session_index / 65536 % 256) as u8,
            (session_index / 16777216 % 256) as u8,
        ] + parent_hash@,
        data@.len() == encoded@.len() + 36,
{
    lemma_data(encoded@, session_index, parent_hash@);
}

/// What is marked as checked can be had back as it was.
pub proof fn a_checked_payload_is_the_one_that_was_signed<Payload>(
    signed: UncheckedSigned<Payload>,
    good: bool,
    checked: Result<Signed<Payload>, UncheckedSigned<Payload>>,
    unchecked: UncheckedSigned<Payload>,
)
    requires
        call_ensures(into_checked::<Payload>, (signed, good), checked),
    ensures
        checked is Ok <==> good,
        checked matches Err(refused) ==> refused == signed,
        checked matches Ok(passed) ==> {
            &&& call_ensures(Signed::<Payload>::into_unchecked, (passed,), unchecked) ==> unchecked
                == signed
            &&& call_ensures(Signed::<Payload>::as_unchecked, (&passed,), &unchecked) ==> unchecked
                == signed
        },
{
}

/// A signature passes exactly where the key at the index that the payload names verifies it,
/// over the payload, the session and the block. What names no validator of the session does
/// not pass, and whatever does not pass is handed back as it came.
pub proof fn a_signature_passes_by_the_named_key<Payload>(
    session_index: SessionIndex,
    session_info: SessionInfo,
    relay_parent: BlockHash,
    signed: UncheckedSigned<Payload>,
    checked: Result<Signed<Payload>, UncheckedSigned<Payload>>,
    unchecked: UncheckedSigned<Payload>,
)
    requires
        call_ensures(
            check_signature::<Payload>,
            (session_index, &session_info, relay_parent, signed),
            checked,
        ),
    ensures
        signed.validator_index.0 >= session_info.validators@.len() ==> checked is Err,
        signed.validator_index.0 < session_info.validators@.len() ==> (checked is Ok
            <==> signature_verifies(
            session_info.validators@[signed.validator_index.0 as int].0@,
            signed.encoded@ + seq![
            (session_index % 256) as u8,
            (session_index / 256 % 256) as u8,
            (session_index / 65536 % 256) as u8,
            (session_index / 16777216 % 256) as u8,
        ] + relay_parent@,
            signed.signature@,
        )),
        checked matches Err(refused) ==> refused == signed,
        checked matches Ok(passed) ==> (call_ensures(
            Signed::<Payload>::into_unchecked,
            (passed,),
            unchecked,
        ) ==> unchecked == signed),
{
    lemma_data(signed.encoded@, session_index, relay_parent@);
}

/// The signed data, written out.
proof fn lemma_data(encoded: Seq<u8>, session_index: SessionIndex, parent_hash: Seq<u8>)
    ensures
        signing_data(encoded, session_index, parent_hash) == encoded + seq![
            (session_index % 256) as u8,
            (session_index / 256 % 256) as u8,
            (session_index / 65536 % 256) as u8,
            (session_index / 16777216 % 256) as u8,
        ] + parent_hash,
{
}

/// An entry that is the first with its key is the one that is found, and a lookup brings it to
/// the front.
proof fn lemma_cached<K, V>(entries: Seq<(K, V)>, key: K, p: int)
    requires
        0 <= p < entries.len(),
        entries[p].0 == key,
        forall|q: int| 0 <= q < p ==> (#[trigger] entries[q]).0 != key,
    ensures
        has_key(entries, key),
        position(entries, key) == p,
        lookup(entries, key) == Some(entries[p].1),
        touched(entries, key) == seq![entries[p]] + entries.remove(p),
{
    assert(first_at(entries, key, p));
    lemma_position_unique(entries, key, p);
}

/// What a cache of session indices holds is what its map holds, and what a cache of sessions
/// holds is what its map holds.
pub proof fn the_caches_hold_what_their_maps_hold(info: RuntimeInfo)
    ensures
        info@.indices == index_entries(info.index_map()),
        info@.index_limit == index_limit(info.index_map()),
        info@.sessions == info_entries(info.session_map()),
        info@.info_limit == info_limit(info.session_map()),
{
    info.lemma_maps();
}

/// Storing a session index is an insertion into the map, and what is then held is what came
/// of it.
pub(crate) proof fn a_stored_index_is_inserted(
    info: RuntimeInfo,
    parent: BlockHash,
    index: SessionIndex,
    indices: Seq<(Seq<u8>, SessionIndex)>,
)
    ensures
        info.stores_index(parent, index, indices) <==> exists|taken: bool, map: SessionIndexCache|
            {
                &&& #[trigger] call_ensures(
                    SessionIndexCache::insert,
                    (info.index_map(), parent, index),
                    (map, taken),
                )
                &&& indices == index_entries(map)
            },
{
    info.lemma_stores_index(parent, index, indices);
}

/// Storing a session is an insertion into the map, and what is then held is what came of it.
pub(crate) proof fn a_stored_session_is_inserted(
    info: RuntimeInfo,
    session_index: SessionIndex,
    session: ExtendedSessionInfo,
    taken: bool,
    sessions: Seq<(SessionIndex, ExtendedSessionInfo)>,
)
    ensures
        info.stores_session(session_index, session, taken, sessions) <==> exists|
            map: SessionInfoCache,
        |
            {
                &&& #[trigger] call_ensures(
                    SessionInfoCache::insert,
                    (info.session_map(), session_index, session),
                    (map, taken),
                )
                &&& sessions == info_entries(map)
            },
{
    info.lemma_stores_session(session_index, session, taken, sessions);
}

/// The memory for the session index of a block is there where every insertion leaves the map
/// as long as it can be: no shorter where the block is known, one longer where there is room,
/// and at its limit where there is none.
pub(crate) proof fn memory_for_an_index_lets_the_map_grow(info: RuntimeInfo, parent: BlockHash)
    ensures
        info.has_memory_for_index(parent) <==> forall|
            index: SessionIndex,
            taken: bool,
            map: SessionIndexCache,
        | #[trigger]
            call_ensures(
                SessionIndexCache::insert,
                (info.index_map(), parent, index),
                (map, taken),
            ) ==> index_entries(map).len() == (if exists|q: int|
                0 <= q < info@.indices.len() && (#[trigger] info@.indices[q]).0 == parent@ {
                info@.indices.len()
            } else if info@.indices.len() < info@.index_limit {
                info@.indices.len() + 1
            } else {
                info@.index_limit
            }),
{
    info.lemma_memory_for_index(parent);
    info.lemma_maps();
    assert(has_key(info@.indices, parent@) <==> exists|q: int|
        0 <= q < info@.indices.len() && (#[trigger] info@.indices[q]).0 == parent@);
}

/// The memory for a session is there where every insertion leaves the map as long as it can
/// be: no shorter where the session is known, one longer where there is room, and at its limit
/// where there is none.
pub(crate) proof fn memory_for_a_session_lets_the_map_grow(
    info: RuntimeInfo,
    session_index: SessionIndex,
)
    ensures
        info.has_memory_for_session(session_index) <==> forall|
            session: ExtendedSessionInfo,
            taken: bool,
            map: SessionInfoCache,
        | #[trigger]
            call_ensures(
                SessionInfoCache::insert,
                (info.session_map(), session_index, session),
                (map, taken),
            ) ==> info_entries(map).len() == (if exists|q: int|
                0 <= q < info@.sessions.len() && (#[trigger] info@.sessions[q]).0 == session_index {
                info@.sessions.len()
            } else if info@.sessions.len() < info@.info_limit {
                info@.sessions.len() + 1
            } else {
                info@.info_limit
            }),
{
    info.lemma_memory_for_session(session_index);
    info.lemma_maps();
    assert(has_key(info@.sessions, session_index) <==> exists|q: int|
        0 <= q < info@.sessions.len() && (#[trigger] info@.sessions[q]).0 == session_index);
}

/// A new `RuntimeInfo` holds nothing, keeps ten blocks and two sessions, and goes by the
/// keystore that it was given.
pub proof fn a_new_cache_keeps_ten_blocks_and_two_sessions(
    keystore: Option<Keystore>,
    info: RuntimeInfo,
)
    requires
        call_ensures(RuntimeInfo::new, (keystore,), info),
    ensures
        info@.indices.len() == 0,
        info@.index_limit == 10,
        info@.sessions.len() == 0,
        info@.info_limit == 2,
        info@.keystore == keystore,
{
}

/// A `RuntimeInfo` with a configuration holds nothing, keeps as many sessions as the
/// configuration says and as many blocks, but no fewer than ten, and goes by the keystore of
/// the configuration.
pub proof fn a_configured_cache_keeps_what_it_is_told_to(config: Config, info: RuntimeInfo)
    requires
        call_ensures(RuntimeInfo::new_with_config, (config,), info),
    ensures
        info@.indices.len() == 0,
        info@.index_limit >= 10,
        info@.index_limit >= config.session_cache_lru_size,
        info@.index_limit == 10 || info@.index_limit == config.session_cache_lru_size,
        info@.sessions.len() == 0,
        info@.info_limit == config.session_cache_lru_size,
        info@.keystore == config.keystore,
{
}

/// By default there is no keystore, and two sessions are kept.
pub proof fn two_sessions_are_kept_by_default(config: Config)
    requires
        call_ensures(Config::default, (), config),
    ensures
        config.keystore is None,
        config.session_cache_lru_size == 2,
{
}

/// The session index of a block that is cached is what the cache has for it, and the block
/// becomes the most recently used; nothing else changes.
pub proof fn a_cached_block_is_answered_from_the_cache(
    before: RuntimeInfo,
    parent: BlockHash,
    p: int,
    step: Step<Result<SessionIndex, Error>>,
    after: RuntimeInfo,
)
    requires
        exists|info: &mut RuntimeInfo|
            {
                &&& *info == before
                &&& *final(info) == after
                &&& #[trigger] call_ensures(
                    RuntimeInfo::get_session_index_for_child,
                    (info, parent, None),
                    step,
                )
            },
        0 <= p < before@.indices.len(),
        before@.indices[p].0 == parent@,
        forall|q: int| 0 <= q < p ==> (#[trigger] before@.indices[q]).0 != parent@,
    ensures
        step == Step::Done(Ok::<SessionIndex, Error>(before@.indices[p].1)),
        after@.indices == seq![before@.indices[p]] + before@.indices.remove(p),
        after@.sessions == before@.sessions,
        after@.index_limit == before@.index_limit,
        after@.info_limit == before@.info_limit,
        after@.keystore == before@.keystore,
{
    lemma_cached(before@.indices, parent@, p);
}

/// The session index of a block that is not cached is asked for in the state of that block,
/// and nothing changes.
pub proof fn an_unknown_block_is_asked_for(
    before: RuntimeInfo,
    parent: BlockHash,
    step: Step<Result<SessionIndex, Error>>,
    after: RuntimeInfo,
)
    requires
        exists|info: &mut RuntimeInfo|
            {
                &&& *info == before
                &&& *final(info) == after
                &&& #[trigger] call_ensures(
                    RuntimeInfo::get_session_index_for_child,
                    (info, parent, None),
                    step,
                )
            },
        forall|q: int|
            0 <= q < before@.indices.len() ==> (#[trigger] before@.indices[q]).0 != parent@,
    ensures
        step == Step::<Result<SessionIndex, Error>>::Ask(
            RuntimeApiMessage {
                relay_parent: parent,
                request: RuntimeApiRequest::SessionIndexForChild,
            },
        ),
        after@ == before@,
{
    assert(!has_key(before@.indices, parent@));
    assert(after@ =~= before@);
}

/// What a map holds after an entry was stored, written out.
proof fn lemma_stored_plainly<K, V>(
    before: Seq<(K, V)>,
    limit: nat,
    key: K,
    value: V,
    after: Seq<(K, V)>,
)
    requires
        after == stored(before, limit, key, value),
    ensures
        forall|p: int|
            {
                &&& 0 <= p < before.len()
                &&& (#[trigger] before[p]).0 == key
                &&& forall|q: int| 0 <= q < p ==> (#[trigger] before[q]).0 != key
            } ==> after == seq![(key, value)] + before.remove(p),
        (forall|q: int| 0 <= q < before.len() ==> (#[trigger] before[q]).0 != key) ==> after == (
        if limit == 0 {
            before
        } else if before.len() < limit {
            seq![(key, value)] + before
        } else {
            seq![(key, value)] + before.take(limit - 1)
        }),
{
    assert forall|p: int|
        {
            &&& 0 <= p < before.len()
            &&& (#[trigger] before[p]).0 == key
            &&& forall|q: int| 0 <= q < p ==> (#[trigger] before[q]).0 != key
        } implies after == seq![(key, value)] + before.remove(p) by {
        lemma_cached(before, key, p);
    }
}

/// A reply to the query for a session index is passed on. A session index that the runtime
/// gave is put into the cache: as the most recently used, in place of what the block had, and
/// at the cost of no more than the least recently used block, where there is the memory for
/// it. A failure leaves everything as it was.
pub proof fn a_session_index_is_passed_on_and_cached(
    before: RuntimeInfo,
    parent: BlockHash,
    reply: Reply<SessionIndex>,
    step: Step<Result<SessionIndex, Error>>,
    after: RuntimeInfo,
)
    requires
        exists|info: &mut RuntimeInfo|
            {
                &&& *info == before
                &&& *final(info) == after
                &&& #[trigger] call_ensures(
                    RuntimeInfo::get_session_index_for_child,
                    (info, parent, Some(reply)),
                    step,
                )
            },
    ensures
        match reply {
            Reply::Answered(Ok(index)) => {
                &&& step == Step::Done(Ok::<SessionIndex, Error>(index))
                &&& before.stores_index(parent, index, after@.indices)
                &&& before.has_memory_for_index(parent) ==> {
                    &&& forall|p: int|
                        {
                            &&& 0 <= p < before@.indices.len()
                            &&& (#[trigger] before@.indices[p]).0 == parent@
                            &&& forall|q: int|
                                0 <= q < p ==> (#[trigger] before@.indices[q]).0 != parent@
                        } ==> after@.indices == seq![(parent@, index)]
                            + before@.indices.remove(p)
                    &&& (forall|q: int|
                        0 <= q < before@.indices.len() ==> (#[trigger] before@.indices[q]).0
                            != parent@) ==> after@.indices == (if before@.index_limit == 0 {
                        before@.indices
                    } else if before@.indices.len() < before@.index_limit {
                        seq![(parent@, index)] + before@.indices
                    } else {
                        seq![(parent@, index)]
                            + before@.indices.take(before@.index_limit - 1)
                    })
                }
            },
            Reply::Answered(Err(error)) => {
                &&& step == Step::Done(Err::<SessionIndex, Error>(Error::RuntimeRequest(error)))
                &&& after@ == before@
            },
            Reply::Canceled => {
                &&& step == Step::Done(Err::<SessionIndex, Error>(Error::RuntimeRequestCanceled))
                &&& after@ == before@
            },
        },
        after@.sessions == before@.sessions,
        after@.index_limit == before@.index_limit,
        after@.info_limit == before@.info_limit,
        after@.keystore == before@.keystore,
{
    if let Reply::Answered(Ok(index)) = reply {
        if before.has_memory_for_index(parent) {
            lemma_stored_plainly(
                before@.indices,
                before@.index_limit,
                parent@,
                index,
                after@.indices,
            );
        }
    }
}

/// The info of a session that is cached is what the cache has for it, whatever the block, and
/// the session becomes the most recently used; nothing else changes.
pub proof fn a_cached_session_is_handed_out_from_the_cache<'a>(
    before: RuntimeInfo,
    parent: BlockHash,
    session_index: SessionIndex,
    p: int,
    step: SessionInfoStep<'a>,
    after: RuntimeInfo,
)
    requires
        exists|info: &mut RuntimeInfo|
            {
                &&& *info == before
                &&& *final(info) == after
                &&& #[trigger] call_ensures(
                    RuntimeInfo::get_session_info_by_index,
                    (info, parent, session_index, None),
                    step,
                )
            },
        0 <= p < before@.sessions.len(),
        before@.sessions[p].0 == session_index,
        forall|q: int| 0 <= q < p ==> (#[trigger] before@.sessions[q]).0 != session_index,
    ensures
        step == SessionInfoStep::<'a>::Done(Ok(Some(&before@.sessions[p].1))),
        after@.sessions == seq![before@.sessions[p]] + before@.sessions.remove(p),
        after@.indices == before@.indices,
        after@.index_limit == before@.index_limit,
        after@.info_limit == before@.info_limit,
        after@.keystore == before@.keystore,
{
    lemma_cached(before@.sessions, session_index, p);
}

/// The info of a session that is not cached is asked for, by exactly its index and in the
/// state of the given block, and nothing changes.
pub proof fn an_unknown_session_is_asked_for<'a>(
    before: RuntimeInfo,
    parent: BlockHash,
    session_index: SessionIndex,
    step: SessionInfoStep<'a>,
    after: RuntimeInfo,
)
    requires
        exists|info: &mut RuntimeInfo|
            {
                &&& *info == before
                &&& *final(info) == after
                &&& #[trigger] call_ensures(
                    RuntimeInfo::get_session_info_by_index,
                    (info, parent, session_index, None),
                    step,
                )
            },
        forall|q: int|
            0 <= q < before@.sessions.len() ==> (#[trigger] before@.sessions[q]).0 != session_index,
    ensures
        step == SessionInfoStep::<'a>::Ask(
            RuntimeApiMessage {
                relay_parent: parent,
                request: RuntimeApiRequest::SessionInfo(session_index),
            },
        ),
        after@ == before@,
{
    assert(!has_key(before@.sessions, session_index));
    assert(after@ =~= before@);
}

/// Session info that the runtime gave is extended by who we are, put into the cache and handed
/// out: as the most recently used session, in place of what was known of it, and at the cost
/// of no more than the least recently used session, where there is the memory for it and room
/// for any. A session that the runtime does not know and a failure are errors, and leave
/// everything as it was.
pub proof fn session_info_is_handed_out_and_cached<'a>(
    before: RuntimeInfo,
    parent: BlockHash,
    session_index: SessionIndex,
    reply: Reply<Option<SessionInfo>>,
    step: SessionInfoStep<'a>,
    after: RuntimeInfo,
)
    requires
        exists|info: &mut RuntimeInfo|
            {
                &&& *info == before
                &&& *final(info) == after
                &&& #[trigger] call_ensures(
                    RuntimeInfo::get_session_info_by_index,
                    (info, parent, session_index, Some(reply)),
                    step,
                )
            },
    ensures
        match reply {
            Reply::Answered(Ok(Some(session_info))) => {
                &&& step matches Step::Done(Ok(found))
                &&& exists|session: ExtendedSessionInfo, taken: bool|
                    {
                        &&& session.session_info == session_info
                        &&& describes(before@.keystore, session_info, session.validator_info)
                        &&& #[trigger] before.stores_session(
                            session_index,
                            session,
                            taken,
                            after@.sessions,
                        )
                        &&& if taken {
                            found == Some(&session)
                        } else {
                            found is None
                        }
                    }
                &&& before.has_memory_for_session(session_index) && before@.info_limit > 0 ==> {
                    &&& found matches Some(session)
                    &&& session.session_info == session_info
                    &&& describes(before@.keystore, session_info, session.validator_info)
                    &&& forall|p: int|
                        {
                            &&& 0 <= p < before@.sessions.len()
                            &&& (#[trigger] before@.sessions[p]).0 == session_index
                            &&& forall|q: int|
                                0 <= q < p ==> (#[trigger] before@.sessions[q]).0 != session_index
                        } ==> after@.sessions == seq![(session_index, *session)]
                            + before@.sessions.remove(p)
                    &&& (forall|q: int|
                        0 <= q < before@.sessions.len() ==> (#[trigger] before@.sessions[q]).0
                            != session_index) ==> after@.sessions == (if before@.info_limit == 0 {
                        before@.sessions
                    } else if before@.sessions.len() < before@.info_limit {
                        seq![(session_index, *session)] + before@.sessions
                    } else {
                        seq![(session_index, *session)]
                            + before@.sessions.take(before@.info_limit - 1)
                    })
                }
            },
            Reply::Answered(Ok(None)) => {
                &&& step == SessionInfoStep::<'a>::Done(Err(Error::NoSuchSession(session_index)))
                &&& after@ == before@
            },
            Reply::Answered(Err(error)) => {
                &&& step == SessionInfoStep::<'a>::Done(Err(Error::RuntimeRequest(error)))
                &&& after@ == before@
            },
            Reply::Canceled => {
                &&& step == SessionInfoStep::<'a>::Done(Err(Error::RuntimeRequestCanceled))
                &&& after@ == before@
            },
        },
        after@.indices == before@.indices,
        after@.index_limit == before@.index_limit,
        after@.info_limit == before@.info_limit,
        after@.keystore == before@.keystore,
{
    if let Reply::Answered(Ok(Some(_))) = reply {
        if before.has_memory_for_session(session_index) && before@.info_limit > 0 {
            lemma_stored_plainly(
                before@.sessions,
                before@.info_limit,
                session_index,
                *(step->Done_0->Ok_0->Some_0),
                after@.sessions,
            );
        }
    }
}

/// The query for the session info of a block is the query for its session.
proof fn lemma_session_call<'a>(
    before: RuntimeInfo,
    relay_parent: BlockHash,
    event: SessionEvent,
    step: SessionInfoStep<'a>,
    after: RuntimeInfo,
) -> (session: SessionStep<'a>)
    requires
        exists|info: &mut RuntimeInfo|
            {
                &&& *info == before
                &&& *final(info) == after
                &&& #[trigger] call_ensures(
                    RuntimeInfo::get_session_info,
                    (info, relay_parent, event),
                    step,
                )
            },
    ensures
        session_call(before, relay_parent, event, session, after),
        step == without_index(session),
{
    choose|session: SessionStep<'a>| #[trigger]
        session_call(before, relay_parent, event, session, after) && step == without_index(session)
}

/// The session of a block is handed out from the cache where the block's session index and that
/// session are cached; it is what the cache has for that very index.
pub proof fn the_session_of_a_known_block_is_handed_out<'a>(
    before: RuntimeInfo,
    relay_parent: BlockHash,
    p: int,
    r: int,
    step: SessionInfoStep<'a>,
    after: RuntimeInfo,
)
    requires
        exists|info: &mut RuntimeInfo|
            {
                &&& *info == before
                &&& *final(info) == after
                &&& #[trigger] call_ensures(
                    RuntimeInfo::get_session_info,
                    (info, relay_parent, SessionEvent::Start),
                    step,
                )
            },
        0 <= p < before@.indices.len(),
        before@.indices[p].0 == relay_parent@,
        forall|q: int| 0 <= q < p ==> (#[trigger] before@.indices[q]).0 != relay_parent@,
        0 <= r < before@.sessions.len(),
        before@.sessions[r].0 == before@.indices[p].1,
        forall|q: int| 0 <= q < r ==> (#[trigger] before@.sessions[q]).0 != before@.indices[p].1,
    ensures
        step == SessionInfoStep::<'a>::Done(Ok(Some(&before@.sessions[r].1))),
        after@.indices == seq![before@.indices[p]] + before@.indices.remove(p),
        after@.sessions == seq![before@.sessions[r]] + before@.sessions.remove(r),
        after@.index_limit == before@.index_limit,
        after@.info_limit == before@.info_limit,
        after@.keystore == before@.keystore,
{
    lemma_cached(before@.indices, relay_parent@, p);
    lemma_cached(before@.sessions, before@.indices[p].1, r);
}

/// Where a block's session index is cached and the session is not, the session is asked for by
/// exactly that index.
pub proof fn the_unknown_session_of_a_known_block_is_asked_for<'a>(
    before: RuntimeInfo,
    relay_parent: BlockHash,
    p: int,
    step: SessionInfoStep<'a>,
    after: RuntimeInfo,
)
    requires
        exists|info: &mut RuntimeInfo|
            {
                &&& *info == before
                &&& *final(info) == after
                &&& #[trigger] call_ensures(
                    RuntimeInfo::get_session_info,
                    (info, relay_parent, SessionEvent::Start),
                    step,
                )
            },
        0 <= p < before@.indices.len(),
        before@.indices[p].0 == relay_parent@,
        forall|q: int| 0 <= q < p ==> (#[trigger] before@.indices[q]).0 != relay_parent@,
        forall|q: int|
            0 <= q < before@.sessions.len() ==> (#[trigger] before@.sessions[q]).0
                != before@.indices[p].1,
    ensures
        step == SessionInfoStep::<'a>::Ask(
            RuntimeApiMessage {
                relay_parent,
                request: RuntimeApiRequest::SessionInfo(before@.indices[p].1),
            },
        ),
        after@.indices == seq![before@.indices[p]] + before@.indices.remove(p),
        after@.sessions == before@.sessions,
        after@.index_limit == before@.index_limit,
        after@.info_limit == before@.info_limit,
        after@.keystore == before@.keystore,
{
    lemma_cached(before@.indices, relay_parent@, p);
    assert(!has_key(before@.sessions, before@.indices[p].1));
}

/// Where a block's session index is not cached, it is asked for, and nothing changes.
pub proof fn the_session_of_an_unknown_block_takes_its_index_first<'a>(
    before: RuntimeInfo,
    relay_parent: BlockHash,
    step: SessionInfoStep<'a>,
    after: RuntimeInfo,
)
    requires
        exists|info: &mut RuntimeInfo|
            {
                &&& *info == before
                &&& *final(info) == after
                &&& #[trigger] call_ensures(
                    RuntimeInfo::get_session_info,
                    (info, relay_parent, SessionEvent::Start),
                    step,
                )
            },
        forall|q: int|
            0 <= q < before@.indices.len() ==> (#[trigger] before@.indices[q]).0 != relay_parent@,
    ensures
        step == SessionInfoStep::<'a>::Ask(
            RuntimeApiMessage { relay_parent, request: RuntimeApiRequest::SessionIndexForChild },
        ),
        after@ == before@,
{
    assert(!has_key(before@.indices, relay_parent@));
    assert(after@ =~= before@);
}

/// A session index that came in the query for the session of a block is stored.
proof fn lemma_session_index_is_stored<'a>(
    before: RuntimeInfo,
    relay_parent: BlockHash,
    reply: Reply<SessionIndex>,
    session: SessionStep<'a>,
    after: RuntimeInfo,
)
    requires
        session_call(before, relay_parent, SessionEvent::Index(reply), session, after),
        caches_grew(before@, relay_parent, SessionEvent::Index(reply), after@),
        reply.outcome() is Ok,
    ensures
        after@.indices == stored(
            before@.indices,
            before@.index_limit,
            relay_parent@,
            reply.outcome()->Ok_0,
        ),
{
    let index = reply.outcome()->Ok_0;
    let taken = choose|taken: bool| #[trigger]
        put(before@.indices, before@.index_limit, relay_parent@, index, taken, after@.indices);
    lemma_stored(
        before@.indices,
        before@.index_limit,
        relay_parent@,
        index,
        taken,
        after@.indices,
    );
}

/// A session index that came for a block is put into the cache, and the session handed out, or
/// asked for where it is not cached, is the one with exactly that index. A failure is the
/// query's, and leaves everything as it was.
pub proof fn the_session_goes_by_the_index_that_came<'a>(
    before: RuntimeInfo,
    relay_parent: BlockHash,
    reply: Reply<SessionIndex>,
    step: SessionInfoStep<'a>,
    after: RuntimeInfo,
)
    requires
        exists|info: &mut RuntimeInfo|
            {
                &&& *info == before
                &&& *final(info) == after
                &&& #[trigger] call_ensures(
                    RuntimeInfo::get_session_info,
                    (info, relay_parent, SessionEvent::Index(reply)),
                    step,
                )
            },
    ensures
        match reply {
            Reply::Answered(Ok(index)) => {
                &&& before.stores_index(relay_parent, index, after@.indices)
                &&& before.has_memory_for_index(relay_parent) ==> {
                    &&& forall|p: int|
                        {
                            &&& 0 <= p < before@.indices.len()
                            &&& (#[trigger] before@.indices[p]).0 == relay_parent@
                            &&& forall|q: int|
                                0 <= q < p ==> (#[trigger] before@.indices[q]).0 != relay_parent@
                        } ==> after@.indices == seq![(relay_parent@, index)]
                            + before@.indices.remove(p)
                    &&& (forall|q: int|
                        0 <= q < before@.indices.len() ==> (#[trigger] before@.indices[q]).0
                            != relay_parent@) ==> after@.indices == (if before@.index_limit == 0 {
                        before@.indices
                    } else if before@.indices.len() < before@.index_limit {
                        seq![(relay_parent@, index)] + before@.indices
                    } else {
                        seq![(relay_parent@, index)]
                            + before@.indices.take(before@.index_limit - 1)
                    })
                }
                &&& forall|r: int|
                    {
                        &&& 0 <= r < before@.sessions.len()
                        &&& (#[trigger] before@.sessions[r]).0 == index
                        &&& forall|q: int|
                            0 <= q < r ==> (#[trigger] before@.sessions[q]).0 != index
                    } ==> {
                        &&& step == SessionInfoStep::<'a>::Done(Ok(Some(&before@.sessions[r].1)))
                        &&& after@.sessions == seq![before@.sessions[r]]
                            + before@.sessions.remove(r)
                    }
                &&& (forall|q: int|
                    0 <= q < before@.sessions.len() ==> (#[trigger] before@.sessions[q]).0
                        != index) ==> {
                    &&& step == SessionInfoStep::<'a>::Ask(
                        RuntimeApiMessage {
                            relay_parent,
                            request: RuntimeApiRequest::SessionInfo(index),
                        },
                    )
                    &&& after@.sessions == before@.sessions
                }
            },
            Reply::Answered(Err(error)) => {
                &&& step == SessionInfoStep::<'a>::Done(Err(Error::RuntimeRequest(error)))
                &&& after@ == before@
            },
            Reply::Canceled => {
                &&& step == SessionInfoStep::<'a>::Done(Err(Error::RuntimeRequestCanceled))
                &&& after@ == before@
            },
        },
        after@.index_limit == before@.index_limit,
        after@.info_limit == before@.info_limit,
        after@.keystore == before@.keystore,
{
    let event = SessionEvent::Index(reply);
    let session = lemma_session_call(before, relay_parent, event, step, after);
    if let Reply::Answered(Ok(index)) = reply {
        assert forall|r: int|
            {
                &&& 0 <= r < before@.sessions.len()
                &&& (#[trigger] before@.sessions[r]).0 == index
                &&& forall|q: int| 0 <= q < r ==> (#[trigger] before@.sessions[q]).0 != index
            } implies lookup(before@.sessions, index) == Some(before@.sessions[r].1) && touched(
            before@.sessions,
            index,
        ) == seq![before@.sessions[r]] + before@.sessions.remove(r) by {
            lemma_cached(before@.sessions, index, r);
        }
        if before.has_memory_for_index(relay_parent) {
            lemma_session_call_grows(
                before,
                relay_parent,
                SessionEvent::Index(reply),
                session,
                after,
            );
            lemma_session_index_is_stored(before, relay_parent, reply, session, after);
            lemma_stored_plainly(
                before@.indices,
                before@.index_limit,
                relay_parent@,
                index,
                after@.indices,
            );
        }
    }
}

/// Session info that came for a block is extended by who we are, put into the cache and handed
/// out, as in the query for the session by its index. The query fails exactly where the runtime
/// does, or does not know the session, and then leaves everything as it was.
pub proof fn the_session_is_the_one_that_came<'a>(
    before: RuntimeInfo,
    relay_parent: BlockHash,
    session_index: SessionIndex,
    reply: Reply<Option<SessionInfo>>,
    step: SessionInfoStep<'a>,
    after: RuntimeInfo,
)
    requires
        exists|info: &mut RuntimeInfo|
            {
                &&& *info == before
                &&& *final(info) == after
                &&& #[trigger] call_ensures(
                    RuntimeInfo::get_session_info,
                    (info, relay_parent, SessionEvent::Info(session_index, reply)),
                    step,
                )
            },
    ensures
        match reply {
            Reply::Answered(Ok(Some(session_info))) => {
                &&& step matches Step::Done(Ok(found))
                &&& exists|session: ExtendedSessionInfo, taken: bool|
                    {
                        &&& session.session_info == session_info
                        &&& describes(before@.keystore, session_info, session.validator_info)
                        &&& #[trigger] before.stores_session(
                            session_index,
                            session,
                            taken,
                            after@.sessions,
                        )
                        &&& if taken {
                            found == Some(&session)
                        } else {
                            found is None
                        }
                    }
                &&& before.has_memory_for_session(session_index) && before@.info_limit > 0 ==> {
                    &&& found matches Some(session)
                    &&& session.session_info == session_info
                    &&& describes(before@.keystore, session_info, session.validator_info)
                    &&& forall|p: int|
                        {
                            &&& 0 <= p < before@.sessions.len()
                            &&& (#[trigger] before@.sessions[p]).0 == session_index
                            &&& forall|q: int|
                                0 <= q < p ==> (#[trigger] before@.sessions[q]).0 != session_index
                        } ==> after@.sessions == seq![(session_index, *session)]
                            + before@.sessions.remove(p)
                    &&& (forall|q: int|
                        0 <= q < before@.sessions.len() ==> (#[trigger] before@.sessions[q]).0
                            != session_index) ==> after@.sessions == (if before@.info_limit == 0 {
                        before@.sessions
                    } else if before@.sessions.len() < before@.info_limit {
                        seq![(session_index, *session)] + before@.sessions
                    } else {
                        seq![(session_index, *session)]
                            + before@.sessions.take(before@.info_limit - 1)
                    })
                }
            },
            Reply::Answered(Ok(None)) => {
                &&& step == SessionInfoStep::<'a>::Done(Err(Error::NoSuchSession(session_index)))
                &&& after@ == before@
            },
            Reply::Answered(Err(error)) => {
                &&& step == SessionInfoStep::<'a>::Done(Err(Error::RuntimeRequest(error)))
                &&& after@ == before@
            },
            Reply::Canceled => {
                &&& step == SessionInfoStep::<'a>::Done(Err(Error::RuntimeRequestCanceled))
                &&& after@ == before@
            },
        },
        step matches Step::Done(Err(_)) <==> !(reply matches Reply::Answered(Ok(Some(_)))),
        after@.indices == before@.indices,
        after@.index_limit == before@.index_limit,
        after@.info_limit == before@.info_limit,
        after@.keystore == before@.keystore,
{
    let event = SessionEvent::Info(session_index, reply);
    let session = lemma_session_call(before, relay_parent, event, step, after);
    let second = choose|second: SessionInfoStep<'a>| #[trigger]
        info_call(before, relay_parent, session_index, Some(reply), second, after) && session
            == with_index(session_index, second);
    if let Reply::Answered(Ok(Some(_))) = reply {
        if before.has_memory_for_session(session_index) && before@.info_limit > 0 {
            lemma_info_call_grows(
                before,
                relay_parent,
                session_index,
                Some(reply),
                second,
                after,
            );
            lemma_info_is_kept(
                before@,
                relay_parent,
                session_index,
                Some(reply),
                second,
                after@,
            );
            lemma_stored_plainly(
                before@.sessions,
                before@.info_limit,
                session_index,
                *(step->Done_0->Ok_0->Some_0),
                after@.sessions,
            );
        }
    }
}

/// What the query for the session of a block hands out is what the query for a session by its
/// index hands out next, without a request and whatever the block: for the index that came with
/// the info, or that came for the block, or that the cache has for the block.
pub proof fn both_queries_hand_out_the_same<'a>(
    before: RuntimeInfo,
    relay_parent: BlockHash,
    event: SessionEvent,
    index: SessionIndex,
    handed: ExtendedSessionInfo,
    between: RuntimeInfo,
    other_parent: BlockHash,
    step: SessionInfoStep<'a>,
    after: RuntimeInfo,
)
    requires
        exists|info: &mut RuntimeInfo|
            {
                &&& *info == before
                &&& *final(info) == between
                &&& #[trigger] call_ensures(
                    RuntimeInfo::get_session_info,
                    (info, relay_parent, event),
                    SessionInfoStep::<'a>::Done(Ok(Some(&handed))),
                )
            },
        match event {
            SessionEvent::Start => exists|p: int|
                {
                    &&& 0 <= p < before@.indices.len()
                    &&& #[trigger] before@.indices[p] == (relay_parent@, index)
                    &&& forall|q: int|
                        0 <= q < p ==> (#[trigger] before@.indices[q]).0 != relay_parent@
                },
            SessionEvent::Index(reply) => reply == Reply::<SessionIndex>::Answered(Ok(index)),
            SessionEvent::Info(session_index, _) => session_index == index,
        },
        exists|info: &mut RuntimeInfo|
            {
                &&& *info == between
                &&& *final(info) == after
                &&& #[trigger] call_ensures(
                    RuntimeInfo::get_session_info_by_index,
                    (info, other_parent, index, None),
                    step,
                )
            },
    ensures
        step == SessionInfoStep::<'a>::Done(Ok(Some(&handed))),
        after@ == between@,
{
    let first = SessionInfoStep::<'a>::Done(Ok(Some(&handed)));
    let session = lemma_session_call(before, relay_parent, event, first, between);
    if let SessionEvent::Start = event {
        let p = choose|p: int|
            {
                &&& 0 <= p < before@.indices.len()
                &&& #[trigger] before@.indices[p] == (relay_parent@, index)
                &&& forall|q: int| 0 <= q < p ==> (#[trigger] before@.indices[q]).0 != relay_parent@
            };
        lemma_cached(before@.indices, relay_parent@, p);
    }
    match event {
        SessionEvent::Info(_, reply) => {
            let second = choose|second: SessionInfoStep<'a>| #[trigger]
                info_step(before@, relay_parent, index, Some(reply), second, between@) && session
                    == with_index(index, second);
            let (found, taken) = choose|found: ExtendedSessionInfo, taken: bool|
                {
                    &&& #[trigger] put(
                        before@.sessions,
                        before@.info_limit,
                        index,
                        found,
                        taken,
                        between@.sessions,
                    )
                    &&& second == Step::Done(
                        Ok::<Option<&'a ExtendedSessionInfo>, Error>(
                            if taken {
                                Some(&found)
                            } else {
                                None
                            },
                        ),
                    )
                };
            lemma_put(
                before@.sessions,
                before@.info_limit,
                index,
                found,
                taken,
                between@.sessions,
            );
        },
        _ => {
            lemma_touched(before@.sessions, index);
        },
    }
    assert(after@ =~= between@);
}

/// The payload that a checked one views is the one that it gives back.
pub proof fn a_checked_payload_is_what_it_views<Payload>(
    checked: Signed<Payload>,
    unchecked: UncheckedSigned<Payload>,
)
    ensures
        call_ensures(Signed::<Payload>::into_unchecked, (checked,), unchecked) ==> unchecked
            == checked@,
        call_ensures(Signed::<Payload>::as_unchecked, (&checked,), &unchecked) ==> unchecked
            == checked@,
{
}

/// The check of a signature goes by a query for the session of the block.
proof fn lemma_signature_call<'a, Payload>(
    before: RuntimeInfo,
    relay_parent: BlockHash,
    event: SessionEvent,
    signed: UncheckedSigned<Payload>,
    checked: SignatureStep<Payload>,
    after: RuntimeInfo,
) -> (session: SessionStep<'a>)
    requires
        exists|info: &mut RuntimeInfo|
            {
                &&& *info == before
                &&& *final(info) == after
                &&& #[trigger] call_ensures(
                    RuntimeInfo::check_signature::<Payload>,
                    (info, relay_parent, event, signed),
                    checked,
                )
            },
    ensures
        session_call(before, relay_parent, event, session, after),
        signature_step(session, relay_parent, signed, checked),
{
    choose|session: SessionStep<'a>| #[trigger]
        session_call(before, relay_parent, event, session, after) && signature_step(
            session,
            relay_parent,
            signed,
            checked,
        )
}

/// Where a block's session index and that session are cached, a signature passes exactly where
/// the key that the session has at the index that the payload names verifies it, over the
/// payload, that session and the block. The payload comes back as it was either way.
pub proof fn a_known_session_settles_a_signature<Payload>(
    before: RuntimeInfo,
    relay_parent: BlockHash,
    p: int,
    r: int,
    signed: UncheckedSigned<Payload>,
    checked: SignatureStep<Payload>,
    after: RuntimeInfo,
)
    requires
        exists|info: &mut RuntimeInfo|
            {
                &&& *info == before
                &&& *final(info) == after
                &&& #[trigger] call_ensures(
                    RuntimeInfo::check_signature::<Payload>,
                    (info, relay_parent, SessionEvent::Start, signed),
                    checked,
                )
            },
        0 <= p < before@.indices.len(),
        before@.indices[p].0 == relay_parent@,
        forall|q: int| 0 <= q < p ==> (#[trigger] before@.indices[q]).0 != relay_parent@,
        0 <= r < before@.sessions.len(),
        before@.sessions[r].0 == before@.indices[p].1,
        forall|q: int| 0 <= q < r ==> (#[trigger] before@.sessions[q]).0 != before@.indices[p].1,
    ensures
        ({
            &&& checked matches SignatureStep::Done(Ok(Some(verdict)))
            &&& verdict is Ok <==> (signed.validator_index.0
                < before@.sessions[r].1.session_info.validators@.len()
                && signature_verifies(
                before@.sessions[r].1.session_info.validators@[
                    signed.validator_index.0 as int
                ].0@,
                signed.encoded@ + seq![
                    (before@.indices[p].1 % 256) as u8,
                    (before@.indices[p].1 / 256 % 256) as u8,
                    (before@.indices[p].1 / 65536 % 256) as u8,
                    (before@.indices[p].1 / 16777216 % 256) as u8,
                ] + relay_parent@,
                signed.signature@,
            ))
            &&& match verdict {
                Ok(passed) => passed@ == signed,
                Err(refused) => refused == signed,
            }
        }),
        after@.indices == seq![before@.indices[p]] + before@.indices.remove(p),
        after@.sessions == seq![before@.sessions[r]] + before@.sessions.remove(r),
        after@.index_limit == before@.index_limit,
        after@.info_limit == before@.info_limit,
        after@.keystore == before@.keystore,
{
    let event = SessionEvent::Start;
    let session = lemma_signature_call(before, relay_parent, event, signed, checked, after);
    lemma_cached(before@.indices, relay_parent@, p);
    lemma_cached(before@.sessions, before@.indices[p].1, r);
    lemma_data(signed.encoded@, before@.indices[p].1, relay_parent@);
}

/// Where a block's session index is cached and the session is not, the check of a signature
/// asks for the session by exactly that index, and gives the signed payload back meanwhile.
pub proof fn a_signature_asks_for_the_session_of_a_known_block<Payload>(
    before: RuntimeInfo,
    relay_parent: BlockHash,
    p: int,
    signed: UncheckedSigned<Payload>,
    checked: SignatureStep<Payload>,
    after: RuntimeInfo,
)
    requires
        exists|info: &mut RuntimeInfo|
            {
                &&& *info == before
                &&& *final(info) == after
                &&& #[trigger] call_ensures(
                    RuntimeInfo::check_signature::<Payload>,
                    (info, relay_parent, SessionEvent::Start, signed),
                    checked,
                )
            },
        0 <= p < before@.indices.len(),
        before@.indices[p].0 == relay_parent@,
        forall|q: int| 0 <= q < p ==> (#[trigger] before@.indices[q]).0 != relay_parent@,
        forall|q: int|
            0 <= q < before@.sessions.len() ==> (#[trigger] before@.sessions[q]).0
                != before@.indices[p].1,
    ensures
        checked == SignatureStep::Ask(
            RuntimeApiMessage {
                relay_parent,
                request: RuntimeApiRequest::SessionInfo(before@.indices[p].1),
            },
            signed,
        ),
        after@.indices == seq![before@.indices[p]] + before@.indices.remove(p),
        after@.sessions == before@.sessions,
        after@.index_limit == before@.index_limit,
        after@.info_limit == before@.info_limit,
        after@.keystore == before@.keystore,
{
    let event = SessionEvent::Start;
    let session = lemma_signature_call(before, relay_parent, event, signed, checked, after);
    lemma_cached(before@.indices, relay_parent@, p);
    assert(!has_key(before@.sessions, before@.indices[p].1));
}

/// Where a block's session index is not cached, the check of a signature asks for it, gives the
/// signed payload back meanwhile, and changes nothing.
pub proof fn a_signature_on_an_unknown_block_takes_its_session_index_first<Payload>(
    before: RuntimeInfo,
    relay_parent: BlockHash,
    signed: UncheckedSigned<Payload>,
    checked: SignatureStep<Payload>,
    after: RuntimeInfo,
)
    requires
        exists|info: &mut RuntimeInfo|
            {
                &&& *info == before
                &&& *final(info) == after
                &&& #[trigger] call_ensures(
                    RuntimeInfo::check_signature::<Payload>,
                    (info, relay_parent, SessionEvent::Start, signed),
                    checked,
                )
            },
        forall|q: int|
            0 <= q < before@.indices.len() ==> (#[trigger] before@.indices[q]).0 != relay_parent@,
    ensures
        checked == SignatureStep::Ask(
            RuntimeApiMessage { relay_parent, request: RuntimeApiRequest::SessionIndexForChild },
            signed,
        ),
        after@ == before@,
{
    let event = SessionEvent::Start;
    let session = lemma_signature_call(before, relay_parent, event, signed, checked, after);
    assert(!has_key(before@.indices, relay_parent@));
    assert(after@ =~= before@);
}

/// A session index that came for the check of a signature is put into the cache, and the check
/// goes by the session with exactly that index: it passes exactly where the key that the session
/// has at the index that the payload names verifies it, over the payload, that session and the
/// block. A session that is not cached is asked for. A failure is the check's, and leaves
/// everything as it was.
pub proof fn a_signature_is_checked_in_the_session_that_came<Payload>(
    before: RuntimeInfo,
    relay_parent: BlockHash,
    reply: Reply<SessionIndex>,
    signed: UncheckedSigned<Payload>,
    checked: SignatureStep<Payload>,
    after: RuntimeInfo,
)
    requires
        exists|info: &mut RuntimeInfo|
            {
                &&& *info == before
                &&& *final(info) == after
                &&& #[trigger] call_ensures(
                    RuntimeInfo::check_signature::<Payload>,
                    (info, relay_parent, SessionEvent::Index(reply), signed),
                    checked,
                )
            },
    ensures
        match reply {
            Reply::Answered(Ok(index)) => {
                &&& before.stores_index(relay_parent, index, after@.indices)
                &&& before.has_memory_for_index(relay_parent) ==> {
                    &&& forall|p: int|
                        {
                            &&& 0 <= p < before@.indices.len()
                            &&& (#[trigger] before@.indices[p]).0 == relay_parent@
                            &&& forall|q: int|
                                0 <= q < p ==> (#[trigger] before@.indices[q]).0 != relay_parent@
                        } ==> after@.indices == seq![(relay_parent@, index)]
                            + before@.indices.remove(p)
                    &&& (forall|q: int|
                        0 <= q < before@.indices.len() ==> (#[trigger] before@.indices[q]).0
                            != relay_parent@) ==> after@.indices == (if before@.index_limit == 0 {
                        before@.indices
                    } else if before@.indices.len() < before@.index_limit {
                        seq![(relay_parent@, index)] + before@.indices
                    } else {
                        seq![(relay_parent@, index)]
                            + before@.indices.take(before@.index_limit - 1)
                    })
                }
                &&& forall|r: int|
                    {
                        &&& 0 <= r < before@.sessions.len()
                        &&& (#[trigger] before@.sessions[r]).0 == index
                        &&& forall|q: int|
                            0 <= q < r ==> (#[trigger] before@.sessions[q]).0 != index
                    } ==> {
                        &&& checked matches SignatureStep::Done(Ok(Some(verdict)))
                        &&& verdict is Ok <==> (signed.validator_index.0
                            < before@.sessions[r].1.session_info.validators@.len()
                            && signature_verifies(
                            before@.sessions[r].1.session_info.validators@[
                                signed.validator_index.0 as int
                            ].0@,
                            signed.encoded@ + seq![
                                (index % 256) as u8,
                                (index / 256 % 256) as u8,
                                (index / 65536 % 256) as u8,
                                (index / 16777216 % 256) as u8,
                            ] + relay_parent@,
                            signed.signature@,
                        ))
                        &&& match verdict {
                            Ok(passed) => passed@ == signed,
                            Err(refused) => refused == signed,
                        }
                        &&& after@.sessions == seq![before@.sessions[r]]
                            + before@.sessions.remove(r)
                    }
                &&& (forall|q: int|
                    0 <= q < before@.sessions.len() ==> (#[trigger] before@.sessions[q]).0
                        != index) ==> {
                    &&& checked == SignatureStep::Ask(
                        RuntimeApiMessage {
                            relay_parent,
                            request: RuntimeApiRequest::SessionInfo(index),
                        },
                        signed,
                    )
                    &&& after@.sessions == before@.sessions
                }
            },
            Reply::Answered(Err(error)) => {
                &&& checked == SignatureStep::<Payload>::Done(Err(Error::RuntimeRequest(error)))
                &&& after@ == before@
            },
            Reply::Canceled => {
                &&& checked == SignatureStep::<Payload>::Done(Err(Error::RuntimeRequestCanceled))
                &&& after@ == before@
            },
        },
        after@.index_limit == before@.index_limit,
        after@.info_limit == before@.info_limit,
        after@.keystore == before@.keystore,
{
    let event = SessionEvent::Index(reply);
    let session = lemma_signature_call(before, relay_parent, event, signed, checked, after);
    if let Reply::Answered(Ok(index)) = reply {
        lemma_data(signed.encoded@, index, relay_parent@);
    }
    if let Reply::Answered(Ok(index)) = reply {
        assert forall|r: int|
            {
                &&& 0 <= r < before@.sessions.len()
                &&& (#[trigger] before@.sessions[r]).0 == index
                &&& forall|q: int| 0 <= q < r ==> (#[trigger] before@.sessions[q]).0 != index
            } implies lookup(before@.sessions, index) == Some(before@.sessions[r].1) && touched(
            before@.sessions,
            index,
        ) == seq![before@.sessions[r]] + before@.sessions.remove(r) by {
            lemma_cached(before@.sessions, index, r);
        }
        if before.has_memory_for_index(relay_parent) {
            lemma_session_call_grows(
                before,
                relay_parent,
                SessionEvent::Index(reply),
                session,
                after,
            );
            lemma_session_index_is_stored(before, relay_parent, reply, session, after);
            lemma_stored_plainly(
                before@.indices,
                before@.index_limit,
                relay_parent@,
                index,
                after@.indices,
            );
        }
    }
}

/// Session info that came for the check of a signature is put into the cache, and settles the
/// check: it passes exactly where the key that the info has at the index that the payload names
/// verifies it, over the payload, that session and the block. Without room or memory for the
/// session there is no verdict. The check fails exactly where the runtime does, or does not know
/// the session, and then leaves everything as it was.
pub proof fn a_signature_is_checked_by_the_session_info_that_came<Payload>(
    before: RuntimeInfo,
    relay_parent: BlockHash,
    session_index: SessionIndex,
    reply: Reply<Option<SessionInfo>>,
    signed: UncheckedSigned<Payload>,
    checked: SignatureStep<Payload>,
    after: RuntimeInfo,
)
    requires
        exists|info: &mut RuntimeInfo|
            {
                &&& *info == before
                &&& *final(info) == after
                &&& #[trigger] call_ensures(
                    RuntimeInfo::check_signature::<Payload>,
                    (info, relay_parent, SessionEvent::Info(session_index, reply), signed),
                    checked,
                )
            },
    ensures
        match reply {
            Reply::Answered(Ok(Some(session_info))) => {
                &&& exists|session: ExtendedSessionInfo, taken: bool|
                    {
                        &&& session.session_info == session_info
                        &&& describes(before@.keystore, session_info, session.validator_info)
                        &&& #[trigger] before.stores_session(
                            session_index,
                            session,
                            taken,
                            after@.sessions,
                        )
                        &&& taken <==> checked != SignatureStep::<Payload>::Done(Ok(None))
                    }
                &&& before.has_memory_for_session(session_index) && before@.info_limit > 0
                    ==> checked != SignatureStep::<Payload>::Done(Ok(None))
                &&& checked != SignatureStep::<Payload>::Done(Ok(None)) ==> {
                    &&& checked matches SignatureStep::Done(Ok(Some(verdict)))
                    &&& verdict is Ok <==> (signed.validator_index.0
                        < session_info.validators@.len()
                        && signature_verifies(
                        session_info.validators@[
                            signed.validator_index.0 as int
                        ].0@,
                        signed.encoded@ + seq![
                            (session_index % 256) as u8,
                            (session_index / 256 % 256) as u8,
                            (session_index / 65536 % 256) as u8,
                            (session_index / 16777216 % 256) as u8,
                        ] + relay_parent@,
                        signed.signature@,
                    ))
                    &&& match verdict {
                        Ok(passed) => passed@ == signed,
                        Err(refused) => refused == signed,
                    }
                }
            },
            Reply::Answered(Ok(None)) => {
                &&& checked == SignatureStep::<Payload>::Done(
                    Err(Error::NoSuchSession(session_index)),
                )
                &&& after@ == before@
            },
            Reply::Answered(Err(error)) => {
                &&& checked == SignatureStep::<Payload>::Done(Err(Error::RuntimeRequest(error)))
                &&& after@ == before@
            },
            Reply::Canceled => {
                &&& checked == SignatureStep::<Payload>::Done(Err(Error::RuntimeRequestCanceled))
                &&& after@ == before@
            },
        },
        after@.indices == before@.indices,
        after@.index_limit == before@.index_limit,
        after@.info_limit == before@.info_limit,
        after@.keystore == before@.keystore,
{
    let event = SessionEvent::Info(session_index, reply);
    let session = lemma_signature_call(before, relay_parent, event, signed, checked, after);
    let second = choose|second: SessionInfoStep<'_>| #[trigger]
        info_call(before, relay_parent, session_index, Some(reply), second, after) && session
            == with_index(session_index, second);
    lemma_data(signed.encoded@, session_index, relay_parent@);
}

} // verus!
