use runtime_info::error::{Error, Reply, RuntimeApiError};
use runtime_info::info::{Config, RuntimeInfo, SessionEvent};
use runtime_info::request::{RuntimeApiMessage, RuntimeApiRequest, Step};
use runtime_info::types::{GroupIndex, SessionInfo, ValidatorId, ValidatorIndex};
use runtime_info::validator::{
    find_confirmed, our_group, validator_info, ExtendedSessionInfo, ValidatorInfo,
};
use sp_keystore::Keystore;

fn session(dispute_period: u32) -> SessionInfo {
    SessionInfo {
        active_validator_indices: vec![ValidatorIndex(4), ValidatorIndex(9)],
        random_seed: [5; 32],
        dispute_period,
        validators: vec![ValidatorId([1; 32]), ValidatorId([2; 32]), ValidatorId([3; 32])],
        discovery_keys: vec![[11; 32]],
        assignment_keys: vec![[12; 32]],
        validator_groups: vec![
            vec![ValidatorIndex(0), ValidatorIndex(2)],
            vec![ValidatorIndex(1)],
            vec![ValidatorIndex(1), ValidatorIndex(2)],
        ],
        n_cores: 3,
        zeroth_delay_tranche_width: 0,
        relay_vrf_modulo_samples: 6,
        n_delay_tranches: 40,
        no_show_slots: 2,
        needed_approvals: 30,
    }
}

fn nobody(dispute_period: u32) -> ExtendedSessionInfo {
    ExtendedSessionInfo {
        session_info: session(dispute_period),
        validator_info: ValidatorInfo { our_index: None, our_group: None },
    }
}

fn without_keystore() -> RuntimeInfo {
    RuntimeInfo::new(None)
}

fn with_size(session_cache_lru_size: u32) -> RuntimeInfo {
    RuntimeInfo::new_with_config(Config { keystore: None, session_cache_lru_size })
}

fn index_request(relay_parent: [u8; 32]) -> RuntimeApiMessage {
    RuntimeApiMessage { relay_parent, request: RuntimeApiRequest::SessionIndexForChild }
}

fn info_request(relay_parent: [u8; 32], index: u32) -> RuntimeApiMessage {
    RuntimeApiMessage { relay_parent, request: RuntimeApiRequest::SessionInfo(index) }
}

fn pruned() -> RuntimeApiError {
    RuntimeApiError::Execution {
        runtime_api_name: String::from("session_info"),
        source: String::from("pruned"),
    }
}

fn is_cached(info: &mut RuntimeInfo, block: u8) -> bool {
    matches!(info.get_session_index_for_child([block; 32], None), Step::Done(Ok(_)))
}

fn fill(info: &mut RuntimeInfo, block: u8) {
    let reply = Some(Reply::Answered(Ok(u32::from(block))));
    assert_eq!(
        info.get_session_index_for_child([block; 32], reply),
        Step::Done(Ok(u32::from(block)))
    );
}

#[test]
fn default_config_keeps_two_sessions() {
    let config: Config = Default::default();
    assert!(config.keystore.is_none());
    assert_eq!(config.session_cache_lru_size, 2);
}

#[test]
fn session_index_is_asked_for_once() {
    let mut info = without_keystore();
    assert_eq!(
        info.get_session_index_for_child([1; 32], None),
        Step::Ask(index_request([1; 32]))
    );
    assert_eq!(
        info.get_session_index_for_child([1; 32], Some(Reply::Answered(Ok(77)))),
        Step::Done(Ok(77))
    );
    assert_eq!(info.get_session_index_for_child([1; 32], None), Step::Done(Ok(77)));
    assert_eq!(info.get_session_index_for_child([1; 32], None), Step::Done(Ok(77)));
    assert_eq!(
        info.get_session_index_for_child([2; 32], None),
        Step::Ask(index_request([2; 32]))
    );
}

#[test]
fn later_session_index_replaces_the_earlier() {
    let mut info = without_keystore();
    info.get_session_index_for_child([1; 32], Some(Reply::Answered(Ok(7))));
    info.get_session_index_for_child([1; 32], Some(Reply::Answered(Ok(8))));
    assert_eq!(info.get_session_index_for_child([1; 32], None), Step::Done(Ok(8)));
}

#[test]
fn blocks_keep_their_own_session_index() {
    let mut info = without_keystore();
    fill(&mut info, 1);
    fill(&mut info, 2);
    info.get_session_index_for_child([1; 32], Some(Reply::Answered(Ok(50))));
    assert_eq!(info.get_session_index_for_child([2; 32], None), Step::Done(Ok(2)));
    assert_eq!(info.get_session_index_for_child([1; 32], None), Step::Done(Ok(50)));
}

#[test]
fn sessions_keep_their_own_info() {
    let mut info = with_size(3);
    for index in [1u32, 2] {
        info.get_session_info_by_index(
            [0; 32],
            index,
            Some(Reply::Answered(Ok(Some(session(index))))),
        );
    }
    info.get_session_info_by_index([0; 32], 1, Some(Reply::Answered(Ok(Some(session(9))))));
    assert_eq!(info.get_session_info_by_index([0; 32], 2, None), Step::Done(Ok(Some(&nobody(2)))));
    assert_eq!(info.get_session_info_by_index([0; 32], 1, None), Step::Done(Ok(Some(&nobody(9)))));
}

#[test]
fn failed_session_index_is_not_cached() {
    let mut info = without_keystore();
    assert_eq!(
        info.get_session_index_for_child([1; 32], Some(Reply::Canceled)),
        Step::Done(Err(Error::RuntimeRequestCanceled))
    );
    assert_eq!(
        info.get_session_index_for_child([1; 32], Some(Reply::Answered(Err(pruned())))),
        Step::Done(Err(Error::RuntimeRequest(pruned())))
    );
    assert!(!is_cached(&mut info, 1));
}

#[test]
fn index_cache_holds_at_least_ten() {
    let mut info = with_size(2);
    for block in 0..11u8 {
        fill(&mut info, block);
    }
    assert!(!is_cached(&mut info, 0));
    for block in 1..11u8 {
        assert!(is_cached(&mut info, block));
    }
}

#[test]
fn index_cache_grows_with_the_session_cache() {
    let mut info = with_size(12);
    for block in 0..13u8 {
        fill(&mut info, block);
    }
    assert!(!is_cached(&mut info, 0));
    for block in 1..13u8 {
        assert!(is_cached(&mut info, block));
    }
}

#[test]
fn used_session_index_outlives_unused_ones() {
    let mut info = with_size(2);
    for block in 0..10u8 {
        fill(&mut info, block);
    }
    assert!(is_cached(&mut info, 0));
    fill(&mut info, 10);
    assert!(is_cached(&mut info, 0));
    assert!(!is_cached(&mut info, 1));
    assert!(is_cached(&mut info, 2));
}

#[test]
fn session_info_is_asked_for_once() {
    let mut info = without_keystore();
    assert_eq!(
        info.get_session_info_by_index([1; 32], 5, None),
        Step::Ask(info_request([1; 32], 5))
    );
    assert_eq!(
        info.get_session_info_by_index([1; 32], 5, Some(Reply::Answered(Ok(Some(session(6)))))),
        Step::Done(Ok(Some(&nobody(6))))
    );
    assert_eq!(
        info.get_session_info_by_index([1; 32], 5, None),
        Step::Done(Ok(Some(&nobody(6))))
    );
    // The block does not matter once the session is known.
    assert_eq!(
        info.get_session_info_by_index([9; 32], 5, None),
        Step::Done(Ok(Some(&nobody(6))))
    );
    assert_eq!(
        info.get_session_info_by_index([9; 32], 6, None),
        Step::Ask(info_request([9; 32], 6))
    );
}

#[test]
fn unknown_session_is_an_error() {
    let mut info = without_keystore();
    assert_eq!(
        info.get_session_info_by_index([1; 32], 5, Some(Reply::Answered(Ok(None)))),
        Step::Done(Err(Error::NoSuchSession(5)))
    );
    assert_eq!(
        info.get_session_info_by_index([1; 32], 5, None),
        Step::Ask(info_request([1; 32], 5))
    );
}

#[test]
fn failed_session_info_is_not_cached() {
    let mut info = without_keystore();
    assert_eq!(
        info.get_session_info_by_index([1; 32], 5, Some(Reply::Canceled)),
        Step::Done(Err(Error::RuntimeRequestCanceled))
    );
    assert_eq!(
        info.get_session_info_by_index([1; 32], 5, Some(Reply::Answered(Err(pruned())))),
        Step::Done(Err(Error::RuntimeRequest(pruned())))
    );
    assert_eq!(
        info.get_session_info_by_index([1; 32], 5, None),
        Step::Ask(info_request([1; 32], 5))
    );
}

#[test]
fn least_recently_used_session_leaves() {
    let mut info = with_size(2);
    for index in [1u32, 2] {
        info.get_session_info_by_index(
            [0; 32],
            index,
            Some(Reply::Answered(Ok(Some(session(index))))),
        );
    }
    // Session 1 is used again, so session 2 makes room for session 3.
    assert!(matches!(info.get_session_info_by_index([0; 32], 1, None), Step::Done(_)));
    info.get_session_info_by_index([0; 32], 3, Some(Reply::Answered(Ok(Some(session(3))))));
    assert_eq!(info.get_session_info_by_index([0; 32], 1, None), Step::Done(Ok(Some(&nobody(1)))));
    assert_eq!(info.get_session_info_by_index([0; 32], 3, None), Step::Done(Ok(Some(&nobody(3)))));
    assert_eq!(
        info.get_session_info_by_index([0; 32], 2, None),
        Step::Ask(info_request([0; 32], 2))
    );
}

#[test]
fn cache_without_room_keeps_nothing() {
    let mut info = with_size(0);
    assert_eq!(
        info.get_session_info_by_index([0; 32], 1, Some(Reply::Answered(Ok(Some(session(1)))))),
        Step::Done(Ok(None))
    );
    assert_eq!(
        info.get_session_info_by_index([0; 32], 1, None),
        Step::Ask(info_request([0; 32], 1))
    );
}

#[test]
fn session_of_a_block_takes_two_requests() {
    let mut info = without_keystore();
    assert_eq!(
        info.get_session_info([1; 32], SessionEvent::Start),
        Step::Ask(index_request([1; 32]))
    );
    assert_eq!(
        info.get_session_info([1; 32], SessionEvent::Index(Reply::Answered(Ok(8)))),
        Step::Ask(info_request([1; 32], 8))
    );
    assert_eq!(
        info.get_session_info(
            [1; 32],
            SessionEvent::Info(8, Reply::Answered(Ok(Some(session(3)))))
        ),
        Step::Done(Ok(Some(&nobody(3))))
    );
    // Now everything is cached.
    assert_eq!(
        info.get_session_info([1; 32], SessionEvent::Start),
        Step::Done(Ok(Some(&nobody(3))))
    );
    // Another block of the same session needs its index alone.
    assert_eq!(
        info.get_session_info([2; 32], SessionEvent::Start),
        Step::Ask(index_request([2; 32]))
    );
    assert_eq!(
        info.get_session_info([2; 32], SessionEvent::Index(Reply::Answered(Ok(8)))),
        Step::Done(Ok(Some(&nobody(3))))
    );
}

#[test]
fn session_of_a_block_fails_as_its_requests_do() {
    let mut info = without_keystore();
    assert_eq!(
        info.get_session_info([1; 32], SessionEvent::Index(Reply::Canceled)),
        Step::Done(Err(Error::RuntimeRequestCanceled))
    );
    assert_eq!(
        info.get_session_info([1; 32], SessionEvent::Info(8, Reply::Answered(Ok(None)))),
        Step::Done(Err(Error::NoSuchSession(8)))
    );
    assert_eq!(
        info.get_session_info([1; 32], SessionEvent::Start),
        Step::Ask(index_request([1; 32]))
    );
}

#[test]
fn current_and_last_session_are_not_asked_for_again() {
    let mut info = without_keystore();
    for index in [7u32, 8] {
        let reply = Reply::Answered(Ok(Some(session(index))));
        assert_eq!(
            info.get_session_info_by_index([0; 32], index, Some(reply)),
            Step::Done(Ok(Some(&nobody(index))))
        );
    }
    for index in [7u32, 7, 8, 7, 8, 8, 7, 8] {
        assert_eq!(
            info.get_session_info_by_index([1; 32], index, None),
            Step::Done(Ok(Some(&nobody(index))))
        );
        let block = [index as u8; 32];
        assert_eq!(
            info.get_session_info(block, SessionEvent::Index(Reply::Answered(Ok(index)))),
            Step::Done(Ok(Some(&nobody(index))))
        );
        assert_eq!(
            info.get_session_info(block, SessionEvent::Start),
            Step::Done(Ok(Some(&nobody(index))))
        );
    }
}

#[test]
fn session_index_outlives_the_failed_query() {
    let mut info = without_keystore();
    assert_eq!(
        info.get_session_info([1; 32], SessionEvent::Index(Reply::Answered(Ok(8)))),
        Step::Ask(info_request([1; 32], 8))
    );
    assert_eq!(
        info.get_session_info([1; 32], SessionEvent::Info(8, Reply::Answered(Ok(None)))),
        Step::Done(Err(Error::NoSuchSession(8)))
    );
    assert_eq!(info.get_session_index_for_child([1; 32], None), Step::Done(Ok(8)));
    assert_eq!(
        info.get_session_info([1; 32], SessionEvent::Start),
        Step::Ask(info_request([1; 32], 8))
    );
}

#[test]
fn failed_query_is_made_good_and_evicts_nothing() {
    let mut info = with_size(2);
    info.get_session_info_by_index([0; 32], 1, Some(Reply::Answered(Ok(Some(session(1))))));
    info.get_session_info_by_index([0; 32], 2, Some(Reply::Answered(Ok(Some(session(2))))));
    assert_eq!(
        info.get_session_info_by_index([0; 32], 3, Some(Reply::Canceled)),
        Step::Done(Err(Error::RuntimeRequestCanceled))
    );
    assert_eq!(info.get_session_info_by_index([0; 32], 1, None), Step::Done(Ok(Some(&nobody(1)))));
    assert_eq!(info.get_session_info_by_index([0; 32], 2, None), Step::Done(Ok(Some(&nobody(2)))));
    assert_eq!(
        info.get_session_info_by_index([0; 32], 3, None),
        Step::Ask(info_request([0; 32], 3))
    );
    assert_eq!(
        info.get_session_info_by_index([0; 32], 3, Some(Reply::Answered(Ok(Some(session(3)))))),
        Step::Done(Ok(Some(&nobody(3))))
    );
    assert_eq!(info.get_session_info_by_index([0; 32], 3, None), Step::Done(Ok(Some(&nobody(3)))));
}

#[test]
fn last_use_decides_over_many_queries() {
    let mut info = with_size(3);
    for index in [1u32, 2, 3, 1, 4, 3, 3] {
        if let Step::Ask(message) = info.get_session_info_by_index([0; 32], index, None) {
            assert_eq!(message, info_request([0; 32], index));
            let reply = Reply::Answered(Ok(Some(session(index))));
            info.get_session_info_by_index([0; 32], index, Some(reply));
        }
    }
    // By their last use: 3, 4, 1, 2.
    for index in [1u32, 4, 3] {
        assert_eq!(
            info.get_session_info_by_index([0; 32], index, None),
            Step::Done(Ok(Some(&nobody(index))))
        );
    }
    for index in [2u32, 5] {
        assert_eq!(
            info.get_session_info_by_index([0; 32], index, None),
            Step::Ask(info_request([0; 32], index))
        );
    }
}

/// A keystore with the key of a seed, as a validator's, and that key.
fn keystore(seed: &str) -> (runtime_info::keystore::Keystore, ValidatorId) {
    let store = sp_keystore::testing::MemoryKeystore::new();
    let kind = sp_core::crypto::KeyTypeId(*b"para");
    let key = store.sr25519_generate_new(kind, Some(seed)).unwrap();
    let inner = std::sync::Arc::new(store);
    (runtime_info::keystore::Keystore { inner }, ValidatorId(key.0))
}

#[test]
fn first_validator_with_a_key_is_us() {
    let (store, key) = keystore("//Alice");
    let info = RuntimeInfo::new(Some(store));
    let mut session = session(0);
    session.validators[1] = key;
    session.validators[2] = key;
    assert_eq!(info.get_our_index(&session.validators), Some(ValidatorIndex(1)));
    assert_eq!(
        info.get_validator_info(&session),
        ValidatorInfo { our_index: Some(ValidatorIndex(1)), our_group: Some(GroupIndex(1)) }
    );
}

#[test]
fn first_group_with_us_is_ours() {
    let (store, key) = keystore("//Alice");
    let info = RuntimeInfo::new(Some(store));
    let mut session = session(0);
    session.validators[2] = key;
    assert_eq!(
        info.get_validator_info(&session),
        ValidatorInfo { our_index: Some(ValidatorIndex(2)), our_group: Some(GroupIndex(0)) }
    );
}

#[test]
fn validator_without_a_group() {
    let (store, key) = keystore("//Alice");
    let info = RuntimeInfo::new(Some(store));
    let mut session = session(0);
    session.validators[2] = key;
    session.validator_groups = vec![vec![ValidatorIndex(0)], vec![]];
    assert_eq!(
        info.get_validator_info(&session),
        ValidatorInfo { our_index: Some(ValidatorIndex(2)), our_group: None }
    );
}

#[test]
fn keystore_without_our_key() {
    let info = RuntimeInfo::new(Some(keystore("//Alice").0));
    assert_eq!(info.get_our_index(&session(0).validators), None);
    assert_eq!(
        info.get_validator_info(&session(0)),
        ValidatorInfo { our_index: None, our_group: None }
    );
}

#[test]
fn key_of_another_kind_is_not_ours() {
    let store = sp_keystore::testing::MemoryKeystore::new();
    let kind = sp_core::crypto::KeyTypeId(*b"babe");
    let key = store.sr25519_generate_new(kind, Some("//Alice")).unwrap();
    let inner = std::sync::Arc::new(store);
    let store = runtime_info::keystore::Keystore { inner };
    assert!(!store.holds(ValidatorId(key.0)));
    let info = RuntimeInfo::new(Some(store));
    assert_eq!(info.get_our_index(&vec![ValidatorId(key.0)]), None);
}

#[test]
fn keystore_holds_what_was_put_in() {
    let (store, key) = keystore("//Bob");
    assert!(store.holds(key));
    assert!(!store.holds(ValidatorId([1; 32])));
}

#[test]
fn no_keystore_no_index() {
    let info = without_keystore();
    let (_, key) = keystore("//Alice");
    assert_eq!(info.get_our_index(&vec![key]), None);
}

#[test]
fn search_stops_at_the_first_hit() {
    let asked = std::cell::Cell::new(0u32);
    let confirm = |validator: ValidatorId| {
        asked.set(asked.get() + 1);
        validator == ValidatorId([2; 32])
    };
    assert_eq!(find_confirmed(confirm, &session(0).validators), Some(ValidatorIndex(1)));
    assert_eq!(asked.get(), 2);
}

#[test]
fn search_without_a_hit() {
    assert_eq!(find_confirmed(|_| false, &session(0).validators), None);
    assert_eq!(find_confirmed(|_| true, &vec![]), None);
}

#[test]
fn group_and_info_follow_the_index() {
    let groups = session(0).validator_groups;
    assert_eq!(our_group(&groups, ValidatorIndex(1)), Some(GroupIndex(1)));
    assert_eq!(our_group(&groups, ValidatorIndex(7)), None);
    assert_eq!(
        validator_info(&session(0), Some(ValidatorIndex(0))),
        ValidatorInfo { our_index: Some(ValidatorIndex(0)), our_group: Some(GroupIndex(0)) }
    );
    assert_eq!(
        validator_info(&session(0), None),
        ValidatorInfo { our_index: None, our_group: None }
    );
}

#[test]
fn fetched_session_tells_who_we_are() {
    let (store, key) = keystore("//Alice");
    let mut info = RuntimeInfo::new(Some(store));
    let with_us = || {
        let mut session = session(4);
        session.validators[0] = key;
        session
    };
    let us = ExtendedSessionInfo {
        session_info: with_us(),
        validator_info: ValidatorInfo {
            our_index: Some(ValidatorIndex(0)),
            our_group: Some(GroupIndex(0)),
        },
    };
    assert_eq!(
        info.get_session_info_by_index([1; 32], 5, Some(Reply::Answered(Ok(Some(with_us()))))),
        Step::Done(Ok(Some(&us)))
    );
    assert_eq!(info.get_session_info_by_index([1; 32], 5, None), Step::Done(Ok(Some(&us))));
}

#[test]
fn session_keeps_its_info_when_a_key_is_added() {
    let store = std::sync::Arc::new(sp_keystore::testing::MemoryKeystore::new());
    let mut info = RuntimeInfo::new(Some(runtime_info::keystore::Keystore {
        inner: store.clone(),
    }));
    let fetched = Some(Reply::Answered(Ok(Some(session(3)))));
    assert_eq!(
        info.get_session_info_by_index([1; 32], 5, fetched),
        Step::Done(Ok(Some(&nobody(3))))
    );
    store.insert(sp_core::crypto::KeyTypeId(*b"para"), "//Alice", &[2; 32]).unwrap();
    assert_eq!(info.get_our_index(&session(3).validators), Some(ValidatorIndex(1)));
    // Other queries in between change nothing either.
    let other = Some(Reply::Answered(Ok(Some(session(4)))));
    assert!(matches!(info.get_session_info_by_index([1; 32], 6, other), Step::Done(Ok(Some(_)))));
    fill(&mut info, 7);
    for block in [1u8, 2] {
        assert_eq!(
            info.get_session_info_by_index([block; 32], 5, None),
            Step::Done(Ok(Some(&nobody(3))))
        );
    }
}

#[test]
fn block_keeps_its_session_index_between_others() {
    let mut info = without_keystore();
    fill(&mut info, 3);
    for block in 10..18u8 {
        fill(&mut info, block);
        assert_eq!(info.get_session_index_for_child([3; 32], None), Step::Done(Ok(3)));
        assert_eq!(
            info.get_session_info([3; 32], SessionEvent::Start),
            Step::Ask(info_request([3; 32], 3))
        );
    }
}
