//! Who we are in a session: our place among the validators, and our group.

use vstd::prelude::*;

use crate::keystore::Keystore;
use crate::types::{GroupIndex, SessionInfo, ValidatorId, ValidatorIndex};

verus! {

/// What is known of this node in a session, in case it is a validator.
#[derive(Clone, Copy, Debug, PartialEq, Eq)]
pub struct ValidatorInfo {
    /// Our index in the vectors of the session info, if we have one.
    pub our_index: Option<ValidatorIndex>,
    /// The group that we belong to, if any.
    pub our_group: Option<GroupIndex>,
}

/// A session info with what it says of this node.
#[derive(Debug, PartialEq, Eq)]
pub struct ExtendedSessionInfo {
    /// The session info as the runtime gave it.
    pub session_info: SessionInfo,
    /// Who we are in that session.
    pub validator_info: ValidatorInfo,
}

/// Whether the validators before `i` were all denied and, where `i` is one of them, the one
/// at `i` was confirmed. `answers` says which answers a validator can have got.
pub open spec fn first_confirmed(
    answers: spec_fn(ValidatorId, bool) -> bool,
    validators: Seq<ValidatorId>,
    i: int,
) -> bool {
    &&& 0 <= i <= validators.len()
    &&& forall|j: int| 0 <= j < i ==> answers(#[trigger] validators[j], false)
    &&& i < validators.len() ==> answers(validators[i], true)
}

/// Our index where the first validator that was confirmed is at `i`.
pub open spec fn index_at(validators: Seq<ValidatorId>, i: int) -> Option<ValidatorIndex> {
    if i < validators.len() {
        Some(ValidatorIndex(i as u32))
    } else {
        None
    }
}

/// Whether `index` is that of the first validator that was confirmed; there is none where
/// all were denied.
pub open spec fn is_first_confirmed(
    answers: spec_fn(ValidatorId, bool) -> bool,
    validators: Seq<ValidatorId>,
    index: Option<ValidatorIndex>,
) -> bool {
    exists|i: int|
        index == index_at(validators, i) && #[trigger] first_confirmed(answers, validators, i)
}

/// Whether `index` is our index among the validators: that of the first one whose key the
/// keystore confirms. Without a keystore, or where it confirms none, we have no index.
pub open spec fn is_our_index(
    keystore: Option<Keystore>,
    validators: Seq<ValidatorId>,
    index: Option<ValidatorIndex>,
) -> bool {
    match keystore {
        None => index is None,
        Some(keystore) => is_first_confirmed(
            |validator: ValidatorId, answer: bool| keystore.answers(validator, answer),
            validators,
            index,
        ),
    }
}

/// Whether the group at `i` is the first that a validator is in.
pub open spec fn first_group(
    groups: Seq<Vec<ValidatorIndex>>,
    validator: ValidatorIndex,
    i: int,
) -> bool {
    &&& 0 <= i < groups.len()
    &&& groups[i]@.contains(validator)
    &&& forall|j: int| 0 <= j < i ==> !(#[trigger] groups[j])@.contains(validator)
}

/// The first group that a validator is in.
pub open spec fn group_of(
    groups: Seq<Vec<ValidatorIndex>>,
    validator: ValidatorIndex,
) -> Option<GroupIndex> {
    if exists|i: int| first_group(groups, validator, i) {
        Some(GroupIndex((choose|i: int| first_group(groups, validator, i)) as u32))
    } else {
        None
    }
}

/// Who we are in a session in which we have `our_index`.
pub open spec fn info_of(
    session_info: SessionInfo,
    our_index: Option<ValidatorIndex>,
) -> ValidatorInfo {
    ValidatorInfo {
        our_index,
        our_group: match our_index {
            Some(index) => group_of(session_info.validator_groups@, index),
            None => None,
        },
    }
}

/// Whether `info` tells who we are in a session, by the answers of the keystore.
pub open spec fn describes(
    keystore: Option<Keystore>,
    session_info: SessionInfo,
    info: ValidatorInfo,
) -> bool {
    &&& is_our_index(keystore, session_info.validators@, info.our_index)
    &&& info == info_of(session_info, info.our_index)
}

/// Asks for one validator after the other, and stops at the first that is confirmed.
pub fn find_confirmed<F: Fn(ValidatorId) -> bool>(
    confirm: F,
    validators: &Vec<ValidatorId>,
) -> (index: Option<ValidatorIndex>)
    requires
        forall|validator: ValidatorId| #[trigger] call_requires(confirm, (validator,)),
    ensures
        is_first_confirmed(
            |validator: ValidatorId, answer: bool| call_ensures(confirm, (validator,), answer),
            validators@,
            index,
        ),
{
    let ghost answers = |validator: ValidatorId, answer: bool|
        call_ensures(confirm, (validator,), answer);
    let mut i: usize = 0;
    while i < validators.len()
        invariant
            i <= validators.len(),
            forall|validator: ValidatorId| #[trigger] call_requires(confirm, (validator,)),
            answers == (|validator: ValidatorId, answer: bool|
                call_ensures(confirm, (validator,), answer)),
            forall|j: int| 0 <= j < i ==> answers(#[trigger] validators@[j], false),
        decreases validators.len() - i,
    {
        if confirm(validators[i]) {
            assert(first_confirmed(answers, validators@, i as int));
            return Some(ValidatorIndex(i as u32));
        }
        i = i + 1;
    }
    assert(first_confirmed(answers, validators@, i as int));
    None
}

/// Our index among the validators.
pub fn our_index(keystore: &Option<Keystore>, validators: &Vec<ValidatorId>) -> (index: Option<
    ValidatorIndex,
>)
    ensures
        is_our_index(*keystore, validators@, index),
{
    match keystore {
        None => None,
        Some(keystore) => {
            let confirm = |validator: ValidatorId| -> (answer: bool)
                ensures
                    keystore.answers(validator, answer),
                { keystore.holds(validator) };
            let index = find_confirmed(confirm, validators);
            proof {
                let given = |validator: ValidatorId, answer: bool|
                    call_ensures(confirm, (validator,), answer);
                let answers = |validator: ValidatorId, answer: bool|
                    keystore.answers(validator, answer);
                let i = choose|i: int|
                    index == index_at(validators@, i) && #[trigger] first_confirmed(
                        given,
                        validators@,
                        i,
                    );
                assert forall|j: int| 0 <= j < i implies answers(
                    #[trigger] validators@[j],
                    false,
                ) by {
                    assert(given(validators@[j], false));
                }
                assert(first_confirmed(answers, validators@, i));
            }
            index
        },
    }
}

/// Whether a validator is in a group.
fn in_group(group: &Vec<ValidatorIndex>, validator: ValidatorIndex) -> (found: bool)
    ensures
        found == group@.contains(validator),
{
    let mut i: usize = 0;
    while i < group.len()
        invariant
            i <= group.len(),
            forall|j: int| 0 <= j < i ==> group@[j] != validator,
        decreases group.len() - i,
    {
        if group[i] == validator {
            return true;
        }
        i = i + 1;
    }
    false
}

/// The first group that a validator is in.
pub fn our_group(groups: &Vec<Vec<ValidatorIndex>>, validator: ValidatorIndex) -> (group: Option<
    GroupIndex,
>)
    ensures
        group == group_of(groups@, validator),
{
    let mut i: usize = 0;
    while i < groups.len()
        invariant
            i <= groups.len(),
            forall|j: int| 0 <= j < i ==> !(#[trigger] groups@[j])@.contains(validator),
        decreases groups.len() - i,
    {
        if in_group(&groups[i], validator) {
            proof {
                assert(first_group(groups@, validator, i as int));
                let found = choose|k: int| first_group(groups@, validator, k);
                assert(found == i);
            }
            return Some(GroupIndex(i as u32));
        }
        i = i + 1;
    }
    None
}

/// Who we are in a session in which we have `our_index`.
pub fn validator_info(session_info: &SessionInfo, our_index: Option<ValidatorIndex>) -> (info:
    ValidatorInfo)
    ensures
        info == info_of(*session_info, our_index),
{
    match our_index {
        Some(index) => ValidatorInfo {
            our_index: Some(index),
            our_group: our_group(&session_info.validator_groups, index),
        },
        None => ValidatorInfo { our_index: None, our_group: None },
    }
}

} // verus!
