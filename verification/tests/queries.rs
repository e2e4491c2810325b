use runtime_info::error::{recv_runtime, Error, Reply, RuntimeApiError};
use runtime_info::mode::{
    prospective_parachains_mode, request_min_backing_votes, ProspectiveParachainsMode,
    LEGACY_MIN_BACKING_VOTES,
};
use runtime_info::queries::{
    get_availability_cores, get_candidate_events, get_group_rotation_info, get_occupied_cores,
    get_on_chain_votes, get_unapplied_slashes, get_validation_code_by_hash, key_ownership_proof,
    occupied_cores, submit_report_dispute_lost,
};
use runtime_info::request::{ask_once, RuntimeApiMessage, RuntimeApiRequest, Step};
use runtime_info::types::{
    AsyncBackingParams, CoreState, DisputeOffenceKind, DisputeProof, OpaqueKeyOwnershipProof,
    ValidatorId, ValidatorIndex,
};

const BLOCK: [u8; 32] = [3; 32];

fn ask<T>(request: RuntimeApiRequest) -> Step<T> {
    Step::Ask(RuntimeApiMessage { relay_parent: BLOCK, request })
}

fn not_supported() -> RuntimeApiError {
    RuntimeApiError::NotSupported { runtime_api_name: String::from("some_call") }
}

fn execution() -> RuntimeApiError {
    RuntimeApiError::Execution {
        runtime_api_name: String::from("some_call"),
        source: String::from("some reason"),
    }
}

fn cores() -> Vec<CoreState<u8, char>> {
    vec![
        CoreState::Free,
        CoreState::Occupied(4),
        CoreState::Scheduled('a'),
        CoreState::Occupied(2),
        CoreState::Occupied(4),
    ]
}

#[test]
fn replies_are_read() {
    assert_eq!(recv_runtime(Reply::Answered(Ok(3u8))), Ok(3));
    assert_eq!(recv_runtime::<u8>(Reply::Canceled), Err(Error::RuntimeRequestCanceled));
    assert_eq!(
        recv_runtime::<u8>(Reply::Answered(Err(execution()))),
        Err(Error::RuntimeRequest(execution()))
    );
}

#[test]
fn one_request_then_its_reply() {
    assert_eq!(
        ask_once::<u8>(BLOCK, RuntimeApiRequest::CandidateEvents, None),
        ask(RuntimeApiRequest::CandidateEvents)
    );
    assert_eq!(
        ask_once(BLOCK, RuntimeApiRequest::CandidateEvents, Some(Reply::Answered(Ok(1u8)))),
        Step::Done(Ok(1))
    );
}

#[test]
fn availability_cores() {
    assert_eq!(
        get_availability_cores::<u8, char>(BLOCK, None),
        ask(RuntimeApiRequest::AvailabilityCores)
    );
    assert_eq!(
        get_availability_cores(BLOCK, Some(Reply::Answered(Ok(cores())))),
        Step::Done(Ok(cores()))
    );
}

#[test]
fn occupants_keep_their_order() {
    assert_eq!(occupied_cores(cores()), vec![4, 2, 4]);
    assert_eq!(occupied_cores::<u8, char>(vec![]), Vec::<u8>::new());
    assert_eq!(occupied_cores(vec![CoreState::<u8, char>::Free]), Vec::<u8>::new());
}

#[test]
fn occupants_of_two_rows() {
    let mut both = cores();
    both.extend(cores());
    let mut expected = occupied_cores(cores());
    expected.extend(occupied_cores(cores()));
    assert_eq!(occupied_cores(both), expected);
}

#[test]
fn occupied_cores_of_a_block() {
    assert_eq!(
        get_occupied_cores::<u8, char>(BLOCK, None),
        ask(RuntimeApiRequest::AvailabilityCores)
    );
    assert_eq!(
        get_occupied_cores(BLOCK, Some(Reply::Answered(Ok(cores())))),
        Step::Done(Ok(vec![4, 2, 4]))
    );
    assert_eq!(
        get_occupied_cores::<u8, char>(BLOCK, Some(Reply::Canceled)),
        Step::Done(Err(Error::RuntimeRequestCanceled))
    );
}

#[test]
fn rotation_info_without_the_groups() {
    assert_eq!(
        get_group_rotation_info::<u8, char>(BLOCK, None),
        ask(RuntimeApiRequest::ValidatorGroups)
    );
    assert_eq!(
        get_group_rotation_info(BLOCK, Some(Reply::Answered(Ok((7u8, 'r'))))),
        Step::Done(Ok('r'))
    );
    assert_eq!(
        get_group_rotation_info::<u8, char>(BLOCK, Some(Reply::Answered(Err(execution())))),
        Step::Done(Err(Error::RuntimeRequest(execution())))
    );
}

#[test]
fn requests_name_what_is_asked_for() {
    assert_eq!(get_candidate_events::<u8>(BLOCK, None), ask(RuntimeApiRequest::CandidateEvents));
    assert_eq!(get_on_chain_votes::<u8>(BLOCK, None), ask(RuntimeApiRequest::FetchOnChainVotes));
    assert_eq!(
        get_validation_code_by_hash::<u8>(BLOCK, [9; 32], None),
        ask(RuntimeApiRequest::ValidationCodeByHash([9; 32]))
    );
    assert_eq!(get_unapplied_slashes::<u8>(BLOCK, None), ask(RuntimeApiRequest::UnappliedSlashes));
    assert_eq!(
        key_ownership_proof(BLOCK, ValidatorId([8; 32]), None),
        ask(RuntimeApiRequest::KeyOwnershipProof(ValidatorId([8; 32])))
    );
}

#[test]
fn replies_are_passed_on() {
    assert_eq!(
        get_candidate_events(BLOCK, Some(Reply::Answered(Ok(vec![1u8, 2])))),
        Step::Done(Ok(vec![1, 2]))
    );
    assert_eq!(
        get_on_chain_votes(BLOCK, Some(Reply::Answered(Ok(Some(1u8))))),
        Step::Done(Ok(Some(1)))
    );
    assert_eq!(
        get_validation_code_by_hash::<u8>(BLOCK, [9; 32], Some(Reply::Answered(Ok(None)))),
        Step::Done(Ok(None))
    );
    assert_eq!(
        get_unapplied_slashes(BLOCK, Some(Reply::Answered(Ok(vec![(1, [2; 32], 'p')])))),
        Step::Done(Ok(vec![(1, [2; 32], 'p')]))
    );
    assert_eq!(
        key_ownership_proof(
            BLOCK,
            ValidatorId([8; 32]),
            Some(Reply::Answered(Ok(Some(OpaqueKeyOwnershipProof(vec![5])))))
        ),
        Step::Done(Ok(Some(OpaqueKeyOwnershipProof(vec![5]))))
    );
}

#[test]
fn dispute_report() {
    let proof = DisputeProof {
        session_index: 4,
        candidate_hash: [7; 32],
        kind: DisputeOffenceKind::AgainstValid,
        validator_index: ValidatorIndex(2),
        validator_id: ValidatorId([6; 32]),
    };
    assert_eq!(
        submit_report_dispute_lost(BLOCK, proof, OpaqueKeyOwnershipProof(vec![1]), None),
        ask(RuntimeApiRequest::SubmitReportDisputeLost(
            proof,
            OpaqueKeyOwnershipProof(vec![1])
        ))
    );
    assert_eq!(
        submit_report_dispute_lost(
            BLOCK,
            proof,
            OpaqueKeyOwnershipProof(vec![1]),
            Some(Reply::Answered(Ok(Some(()))))
        ),
        Step::Done(Ok(Some(())))
    );
}

#[test]
fn mode_is_enabled_with_parameters() {
    let params = AsyncBackingParams { max_candidate_depth: 4, allowed_ancestry_len: 3 };
    let mode = ProspectiveParachainsMode::Enabled {
        max_candidate_depth: 4,
        allowed_ancestry_len: 3,
    };
    assert_eq!(
        prospective_parachains_mode(BLOCK, None),
        ask(RuntimeApiRequest::StagingAsyncBackingParams)
    );
    assert_eq!(
        prospective_parachains_mode(BLOCK, Some(Reply::Answered(Ok(params)))),
        Step::Done(Ok(mode))
    );
    assert!(mode.is_enabled());
}

#[test]
fn mode_is_disabled_without_support() {
    assert_eq!(
        prospective_parachains_mode(BLOCK, Some(Reply::Answered(Err(not_supported())))),
        Step::Done(Ok(ProspectiveParachainsMode::Disabled))
    );
    assert!(!ProspectiveParachainsMode::Disabled.is_enabled());
}

#[test]
fn mode_is_unknown_after_a_failure() {
    assert_eq!(
        prospective_parachains_mode(BLOCK, Some(Reply::Answered(Err(execution())))),
        Step::Done(Err(Error::RuntimeRequest(execution())))
    );
    assert_eq!(
        prospective_parachains_mode(BLOCK, Some(Reply::Canceled)),
        Step::Done(Err(Error::RuntimeRequestCanceled))
    );
}

#[test]
fn backing_votes_of_the_runtime() {
    assert_eq!(
        request_min_backing_votes(BLOCK, 6, None),
        ask(RuntimeApiRequest::MinimumBackingVotes(6))
    );
    assert_eq!(
        request_min_backing_votes(BLOCK, 6, Some(Reply::Answered(Ok(5)))),
        Step::Done(Ok(5))
    );
}

#[test]
fn legacy_backing_votes_without_support() {
    assert_eq!(
        request_min_backing_votes(BLOCK, 6, Some(Reply::Answered(Err(not_supported())))),
        Step::Done(Ok(2))
    );
    assert_eq!(LEGACY_MIN_BACKING_VOTES, polkadot_primitives::LEGACY_MIN_BACKING_VOTES);
}

#[test]
fn backing_votes_fail_otherwise() {
    assert_eq!(
        request_min_backing_votes(BLOCK, 6, Some(Reply::Answered(Err(execution())))),
        Step::Done(Err(Error::RuntimeRequest(execution())))
    );
    assert_eq!(
        request_min_backing_votes(BLOCK, 6, Some(Reply::Canceled)),
        Step::Done(Err(Error::RuntimeRequestCanceled))
    );
}
