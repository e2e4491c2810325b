//! The chain's data as plain values.

use vstd::prelude::*;

verus! {

/// A block hash.
pub type BlockHash = [u8; 32];

/// The number of a session.
pub type SessionIndex = u32;

/// The hash that identifies a candidate.
pub type CandidateHash = BlockHash;

/// The hash that identifies a piece of validation code.
pub type ValidationCodeHash = BlockHash;

/// The kind of a key in a keystore.
pub type KeyTypeId = [u8; 4];

/// The kind under which a keystore files the keys of parachain validators: `para`.
pub const PARACHAIN_KEY_TYPE_ID: KeyTypeId = [0x70, 0x61, 0x72, 0x61];

/// A validator's position in the validator set of a session.
#[derive(Clone, Copy, Debug, PartialEq, Eq, Structural)]
pub struct ValidatorIndex(pub u32);

/// The position of a group among the validator groups of a session.
#[derive(Clone, Copy, Debug, PartialEq, Eq, Structural)]
pub struct GroupIndex(pub u32);

/// The public key by which a validator signs.
#[derive(Clone, Copy, Debug, PartialEq, Eq)]
pub struct ValidatorId(pub [u8; 32]);

/// What the runtime tells of a session.
#[derive(Debug, PartialEq, Eq)]
pub struct SessionInfo {
    /// The validators that take part in parachain consensus, as indices into
    /// the broader validator set.
    pub active_validator_indices: Vec<ValidatorIndex>,
    /// The session's random seed.
    pub random_seed: [u8; 32],
    /// How many sessions to keep for disputes.
    pub dispute_period: SessionIndex,
    /// The validators in canonical order.
    pub validators: Vec<ValidatorId>,
    /// The authority discovery keys in canonical order.
    pub discovery_keys: Vec<[u8; 32]>,
    /// The validators' assignment keys.
    pub assignment_keys: Vec<[u8; 32]>,
    /// The validators by group.
    pub validator_groups: Vec<Vec<ValidatorIndex>>,
    /// The number of availability cores.
    pub n_cores: u32,
    /// The width of the zeroth delay tranche.
    pub zeroth_delay_tranche_width: u32,
    /// The number of samples of the relay VRF modulo.
    pub relay_vrf_modulo_samples: u32,
    /// The number of delay tranches.
    pub n_delay_tranches: u32,
    /// How many slots must pass before an assignment is a no-show.
    pub no_show_slots: u32,
    /// How many validators must approve a block.
    pub needed_approvals: u32,
}

/// The state of an availability core.
///
/// What is known of the occupant and of the scheduled para is carried along
/// and never looked into.
#[derive(Debug, PartialEq, Eq)]
pub enum CoreState<OccupiedCore, ScheduledCore> {
    /// The core is occupied.
    Occupied(OccupiedCore),
    /// The core is free, with a para scheduled on it.
    Scheduled(ScheduledCore),
    /// The core is free and nothing is scheduled on it.
    Free,
}

/// The parameters of asynchronous backing.
#[derive(Clone, Copy, Debug, PartialEq, Eq)]
pub struct AsyncBackingParams {
    /// How many para blocks may lie between the para head in a relay parent and a new candidate.
    pub max_candidate_depth: u32,
    /// How many ancestors of a relay parent candidates may be built on.
    pub allowed_ancestry_len: u32,
}

/// What a validator did to lose a dispute.
#[derive(Clone, Copy, Debug, PartialEq, Eq)]
pub enum DisputeOffenceKind {
    /// It backed an invalid block.
    ForInvalidBacked,
    /// It disputed a valid block.
    AgainstValid,
    /// It approved an invalid block.
    ForInvalidApproved,
}

/// The proof of a validator's offence in a past session.
#[derive(Clone, Copy, Debug, PartialEq, Eq)]
pub struct DisputeProof {
    /// The session of the disputed candidate.
    pub session_index: SessionIndex,
    /// The disputed candidate.
    pub candidate_hash: CandidateHash,
    /// The offence.
    pub kind: DisputeOffenceKind,
    /// The offender's index in that session.
    pub validator_index: ValidatorIndex,
    /// The offender's key in that session.
    pub validator_id: ValidatorId,
}

/// An encoded proof that a key belonged to a validator.
#[derive(Debug, PartialEq, Eq)]
pub struct OpaqueKeyOwnershipProof(pub Vec<u8>);

} // verus!
