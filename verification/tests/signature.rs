use parity_scale_codec::Encode;
use polkadot_primitives::UncheckedSigned as Primitive;
use runtime_info::error::{Error, Reply};
use runtime_info::info::{RuntimeInfo, SessionEvent, SignatureStep};
use runtime_info::keystore::Keystore;
use runtime_info::request::{RuntimeApiMessage, RuntimeApiRequest};
use runtime_info::signature::{check_signature, into_checked, payload_data, UncheckedSigned};
use runtime_info::types::{SessionInfo, ValidatorId, ValidatorIndex, PARACHAIN_KEY_TYPE_ID};
use sp_core::Pair;

fn pair(seed: u8) -> sp_core::sr25519::Pair {
    sp_core::sr25519::Pair::from_seed(&[seed; 32])
}

fn session() -> SessionInfo {
    SessionInfo {
        active_validator_indices: vec![],
        random_seed: [0; 32],
        dispute_period: 6,
        validators: vec![ValidatorId(pair(1).public().0), ValidatorId(pair(2).public().0)],
        discovery_keys: vec![],
        assignment_keys: vec![],
        validator_groups: vec![],
        n_cores: 0,
        zeroth_delay_tranche_width: 0,
        relay_vrf_modulo_samples: 0,
        n_delay_tranches: 0,
        no_show_slots: 0,
        needed_approvals: 0,
    }
}

fn signed(seed: u8, index: u32, session: u32, block: [u8; 32]) -> UncheckedSigned<&'static str> {
    let encoded = vec![9, 8, 7];
    let data = payload_data(&encoded, session, &block);
    UncheckedSigned {
        payload: "payload",
        encoded,
        validator_index: ValidatorIndex(index),
        signature: pair(seed).sign(&data).0,
    }
}

fn same(a: &UncheckedSigned<&'static str>, b: &UncheckedSigned<&'static str>) -> bool {
    a == b
}

fn copy(a: &UncheckedSigned<&'static str>) -> UncheckedSigned<&'static str> {
    UncheckedSigned {
        payload: a.payload,
        encoded: a.encoded.clone(),
        validator_index: a.validator_index,
        signature: a.signature,
    }
}

#[test]
fn signed_data_is_payload_session_and_block() {
    let mut expected = vec![1, 2, 3, 0x78, 0x56, 0x34, 0x12];
    expected.extend([6; 32]);
    assert_eq!(payload_data(&vec![1, 2, 3], 0x12345678, &[6; 32]), expected);
}

#[test]
fn signed_data_is_what_the_primitives_sign() {
    let context = polkadot_primitives::SigningContext {
        session_index: 77,
        parent_hash: polkadot_primitives::Hash::from([3; 32]),
    };
    let payload: (u16, Vec<u8>) = (500, vec![4, 5]);
    assert_eq!(
        payload_data(&payload.encode(), 77, &[3; 32]),
        (payload, context).encode()
    );
}

#[test]
fn good_signature_passes() {
    let unchecked = signed(2, 1, 5, [4; 32]);
    let kept = copy(&unchecked);
    let checked = check_signature(5, &session(), [4; 32], unchecked).unwrap();
    assert!(same(checked.as_unchecked(), &kept));
    assert!(same(&checked.into_unchecked(), &kept));
}

#[test]
fn signature_of_another_validator_is_refused() {
    let unchecked = signed(1, 1, 5, [4; 32]);
    let kept = copy(&unchecked);
    assert!(same(&check_signature(5, &session(), [4; 32], unchecked).unwrap_err(), &kept));
}

#[test]
fn signature_for_another_session_is_refused() {
    assert!(check_signature(6, &session(), [4; 32], signed(2, 1, 5, [4; 32])).is_err());
}

#[test]
fn signature_for_another_block_is_refused() {
    assert!(check_signature(5, &session(), [3; 32], signed(2, 1, 5, [4; 32])).is_err());
}

#[test]
fn changed_payload_is_refused() {
    let mut unchecked = signed(2, 1, 5, [4; 32]);
    unchecked.encoded = vec![9, 8, 6];
    assert!(check_signature(5, &session(), [4; 32], unchecked).is_err());
}

#[test]
fn validator_out_of_range_is_refused() {
    let unchecked = signed(2, 2, 5, [4; 32]);
    let kept = copy(&unchecked);
    assert!(same(&check_signature(5, &session(), [4; 32], unchecked).unwrap_err(), &kept));
    assert!(check_signature(5, &session(), [4; 32], signed(2, u32::MAX, 5, [4; 32])).is_err());
}

#[test]
fn malformed_key_is_refused() {
    let mut session = session();
    session.validators[1] = ValidatorId([255; 32]);
    assert!(check_signature(5, &session, [4; 32], signed(2, 1, 5, [4; 32])).is_err());
}

#[test]
fn primitives_agree_on_signatures() {
    let payload: (u16, Vec<u8>) = (500, vec![4, 5]);
    let encoded = parity_scale_codec::Encode::encode(&payload);
    let context = polkadot_primitives::SigningContext {
        session_index: 5,
        parent_hash: polkadot_primitives::Hash::from([4; 32]),
    };
    let key = polkadot_primitives::ValidatorId::from(pair(2).public());
    for seed in [1u8, 2] {
        let signature = pair(seed).sign(&payload_data(&encoded, 5, &[4; 32]));
        let theirs: Primitive<(u16, Vec<u8>)> = Primitive::new(
            payload.clone(),
            polkadot_primitives::ValidatorIndex(1),
            signature.into(),
        );
        let ours = UncheckedSigned {
            payload: payload.clone(),
            encoded: encoded.clone(),
            validator_index: ValidatorIndex(1),
            signature: signature.0,
        };
        assert_eq!(
            theirs.try_into_checked(&context, &key).is_ok(),
            check_signature(5, &session(), [4; 32], ours).is_ok()
        );
    }
}

#[test]
fn verdict_decides() {
    let unchecked = signed(2, 1, 5, [4; 32]);
    let kept = copy(&unchecked);
    assert!(same(into_checked(copy(&kept), true).unwrap().as_unchecked(), &kept));
    assert!(same(&into_checked(unchecked, false).unwrap_err(), &kept));
}

#[test]
fn check_goes_through_the_session_of_the_block() {
    let mut info: RuntimeInfo = RuntimeInfo::new(None);
    let block = [4; 32];
    let kept = signed(2, 1, 5, block);
    let unchecked = match info.check_signature(block, SessionEvent::Start, copy(&kept)) {
        SignatureStep::Ask(message, unchecked) => {
            let request = RuntimeApiRequest::SessionIndexForChild;
            assert_eq!(message, RuntimeApiMessage { relay_parent: block, request });
            unchecked
        }
        SignatureStep::Done(_) => panic!("nothing is cached"),
    };
    assert!(same(&unchecked, &kept));
    let event = SessionEvent::Index(Reply::Answered(Ok(5)));
    let unchecked = match info.check_signature(block, event, unchecked) {
        SignatureStep::Ask(message, unchecked) => {
            let request = RuntimeApiRequest::SessionInfo(5);
            assert_eq!(message, RuntimeApiMessage { relay_parent: block, request });
            unchecked
        }
        SignatureStep::Done(_) => panic!("the session is not cached"),
    };
    let event = SessionEvent::Info(5, Reply::Answered(Ok(Some(session()))));
    match info.check_signature(block, event, unchecked) {
        SignatureStep::Done(Ok(Some(Ok(checked)))) => {
            assert!(same(checked.as_unchecked(), &kept));
        }
        _ => panic!("the signature is good"),
    }
    // The session is cached now; what another block signed for is refused.
    match info.check_signature(block, SessionEvent::Start, signed(2, 1, 5, [5; 32])) {
        SignatureStep::Done(Ok(Some(Err(_)))) => {}
        _ => panic!("the signature is bad"),
    }
}

#[test]
fn bad_signature_is_handed_back_after_a_fresh_fetch() {
    let mut info: RuntimeInfo = RuntimeInfo::new(None);
    let kept = signed(1, 1, 5, [4; 32]);
    let event = SessionEvent::Info(5, Reply::Answered(Ok(Some(session()))));
    match info.check_signature([4; 32], event, copy(&kept)) {
        SignatureStep::Done(Ok(Some(Err(refused)))) => assert!(same(&refused, &kept)),
        _ => panic!("the signature is bad"),
    }
}

#[test]
fn verdict_does_not_depend_on_our_keys() {
    let store = sp_keystore::testing::MemoryKeystore::new();
    let kind = polkadot_primitives::PARACHAIN_KEY_TYPE_ID;
    sp_keystore::Keystore::insert(&store, kind, "//Alice", &pair(2).public().0).unwrap();
    let keystore = Keystore { inner: std::sync::Arc::new(store) };
    let mut ours: RuntimeInfo = RuntimeInfo::new(Some(keystore));
    let mut theirs: RuntimeInfo = RuntimeInfo::new(None);
    for seed in [1u8, 2] {
        for info in [&mut ours, &mut theirs] {
            let event = SessionEvent::Info(5, Reply::Answered(Ok(Some(session()))));
            match info.check_signature([4; 32], event, signed(seed, 1, 5, [4; 32])) {
                SignatureStep::Done(Ok(Some(checked))) => assert_eq!(checked.is_ok(), seed == 2),
                _ => panic!("the session is there"),
            }
        }
    }
}

#[test]
fn check_fails_with_the_session() {
    let mut info: RuntimeInfo = RuntimeInfo::new(None);
    let event = SessionEvent::Info(5, Reply::Answered(Ok(None)));
    match info.check_signature([4; 32], event, signed(2, 1, 5, [4; 32])) {
        SignatureStep::Done(Err(error)) => assert_eq!(error, Error::NoSuchSession(5)),
        _ => panic!("there is no session"),
    }
}

#[test]
fn validator_keys_have_the_kind_of_the_primitives() {
    assert_eq!(PARACHAIN_KEY_TYPE_ID, polkadot_primitives::PARACHAIN_KEY_TYPE_ID.0);
}
