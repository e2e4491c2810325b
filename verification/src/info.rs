//! The cache of session info.

use vstd::prelude::*;

use crate::cache::{
    index_entries, index_limit, info_entries, info_limit, SessionIndexCache, SessionInfoCache,
};
use crate::error::{recv_runtime, Error, Reply};
use crate::keystore::Keystore;
use crate::lru::{
    as_long_as_allowed, lemma_put, lemma_put_wf, lemma_stored, lemma_touched, lemma_touched_wf,
    lookup, put, stored, touched, wf,
};
use crate::request::{RuntimeApiMessage, RuntimeApiRequest, Step};
use crate::signature::{check_signature, checked_as, well_signed, Signed, UncheckedSigned};
use crate::types::{BlockHash, SessionIndex, SessionInfo, ValidatorId, ValidatorIndex};
use crate::validator::{
    describes, is_our_index, our_index, validator_info, ExtendedSessionInfo, ValidatorInfo,
};

verus! {

/// How to set a [`RuntimeInfo`] up.
pub struct Config {
    /// Needed to find out who we are among the validators.
    ///
    /// `None` is for those who do not care.
    pub keystore: Option<Keystore>,
    /// How many sessions to keep in the cache.
    pub session_cache_lru_size: u32,
}

impl Default for Config {
    fn default() -> (config: Self)
        ensures
            config.keystore is None,
            config.session_cache_lru_size == 2,
    {
        Config {
            keystore: None,
            // Mostly the current session and the last one are needed.
            session_cache_lru_size: 2,
        }
    }
}

/// Caches session info.
///
/// It is for whoever sets it up to see that a session stays cached as long as it might be
/// needed.
pub struct RuntimeInfo {
    session_index_cache: SessionIndexCache,
    session_info_cache: SessionInfoCache,
    keystore: Option<Keystore>,
}

/// What a [`RuntimeInfo`] holds.
#[verifier::ext_equal]
pub struct RuntimeInfoView {
    /// The session index expected at the children of a block, the most recently used first.
    pub indices: Seq<(Seq<u8>, SessionIndex)>,
    /// How many session indices are kept.
    pub index_limit: nat,
    /// What is known of a session, the most recently used first.
    pub sessions: Seq<(SessionIndex, ExtendedSessionInfo)>,
    /// How many sessions are kept.
    pub info_limit: nat,
    /// The keystore.
    pub keystore: Option<Keystore>,
}

impl RuntimeInfoView {
    /// Both caches keep to their limits and hold no key twice.
    pub open spec fn wf(self) -> bool {
        &&& wf(self.indices, self.index_limit)
        &&& wf(self.sessions, self.info_limit)
    }

    /// With other session indices.
    pub open spec fn with_indices(self, indices: Seq<(Seq<u8>, SessionIndex)>) -> Self {
        RuntimeInfoView { indices, ..self }
    }

    /// With other sessions.
    pub open spec fn with_sessions(
        self,
        sessions: Seq<(SessionIndex, ExtendedSessionInfo)>,
    ) -> Self {
        RuntimeInfoView { sessions, ..self }
    }
}

/// What drives a query for the session of a block.
#[derive(Debug, PartialEq, Eq)]
pub enum SessionEvent {
    /// The query begins.
    Start,
    /// The session index has come.
    Index(Reply<SessionIndex>),
    /// The info of the session with that index has come.
    Info(SessionIndex, Reply<Option<SessionInfo>>),
}

/// Where the check of a signature stands.
pub enum SignatureStep<Payload> {
    /// The message must be sent and its reply handed back with the signed payload.
    Ask(RuntimeApiMessage, UncheckedSigned<Payload>),
    /// The check is over.
    Done(Result<Option<Result<Signed<Payload>, UncheckedSigned<Payload>>>, Error>),
}

/// How a query for a session index proceeds.
///
/// It begins with a look at the cache, and asks only where nothing is there. An answer is put
/// into the cache; a failure leaves the cache as it is.
pub open spec fn index_step(
    before: RuntimeInfoView,
    parent: BlockHash,
    reply: Option<Reply<SessionIndex>>,
    step: Step<Result<SessionIndex, Error>>,
    after: RuntimeInfoView,
) -> bool {
    match reply {
        None => {
            &&& after == before.with_indices(touched(before.indices, parent@))
            &&& match lookup(before.indices, parent@) {
                Some(index) => step == Step::Done(Ok::<SessionIndex, Error>(index)),
                None => step == Step::<Result<SessionIndex, Error>>::Ask(
                    RuntimeApiMessage {
                        relay_parent: parent,
                        request: RuntimeApiRequest::SessionIndexForChild,
                    },
                ),
            }
        },
        Some(reply) => {
            &&& step == Step::Done(reply.outcome())
            &&& match reply.outcome() {
                Ok(index) => {
                    &&& after == before.with_indices(after.indices)
                    &&& exists|taken: bool| #[trigger]
                        put(
                            before.indices,
                            before.index_limit,
                            parent@,
                            index,
                            taken,
                            after.indices,
                        )
                },
                Err(_) => after == before,
            }
        },
    }
}

/// Where a query for the info of a session stands. `Done(Ok(None))` says that the cache did
/// not keep what was just put into it.
pub type SessionInfoStep<'a> = Step<Result<Option<&'a ExtendedSessionInfo>, Error>>;

/// How a query for the info of a session proceeds.
///
/// It begins with a look at the cache, and asks only where nothing is there. An answer is
/// extended by who we are in that session, put into the cache and handed out from there; a
/// failure leaves the cache as it is.
pub open spec fn info_step<'a>(
    before: RuntimeInfoView,
    parent: BlockHash,
    session_index: SessionIndex,
    reply: Option<Reply<Option<SessionInfo>>>,
    step: SessionInfoStep<'a>,
    after: RuntimeInfoView,
) -> bool {
    match reply {
        None => {
            &&& after == before.with_sessions(touched(before.sessions, session_index))
            &&& match lookup(before.sessions, session_index) {
                Some(info) => step == Step::Done(
                    Ok::<Option<&'a ExtendedSessionInfo>, Error>(Some(&info)),
                ),
                None => step == Step::<Result<Option<&'a ExtendedSessionInfo>, Error>>::Ask(
                    RuntimeApiMessage {
                        relay_parent: parent,
                        request: RuntimeApiRequest::SessionInfo(session_index),
                    },
                ),
            }
        },
        Some(reply) => match reply.outcome() {
            Ok(Some(session_info)) => {
                &&& after == before.with_sessions(after.sessions)
                &&& exists|info: ExtendedSessionInfo, taken: bool|
                    {
                        &&& info.session_info == session_info
                        &&& describes(before.keystore, session_info, info.validator_info)
                        &&& #[trigger] put(
                            before.sessions,
                            before.info_limit,
                            session_index,
                            info,
                            taken,
                            after.sessions,
                        )
                        &&& step == Step::Done(
                            Ok::<Option<&'a ExtendedSessionInfo>, Error>(
                                if taken {
                                    Some(&info)
                                } else {
                                    None
                                },
                            ),
                        )
                    }
            },
            Ok(None) => {
                &&& after == before
                &&& step == Step::Done(
                    Err::<Option<&'a ExtendedSessionInfo>, Error>(
                        Error::NoSuchSession(session_index),
                    ),
                )
            },
            Err(error) => {
                &&& after == before
                &&& step == Step::Done(Err::<Option<&'a ExtendedSessionInfo>, Error>(error))
            },
        },
    }
}

/// Where a query for the session of a block stands, with the session's index.
pub type SessionStep<'a> = Step<Result<(SessionIndex, Option<&'a ExtendedSessionInfo>), Error>>;

/// A step of the query for the info of a session, with the session's index.
pub open spec fn with_index<'a>(
    session_index: SessionIndex,
    step: SessionInfoStep<'a>,
) -> SessionStep<'a> {
    match step {
        Step::Ask(message) => Step::Ask(message),
        Step::Done(Ok(info)) => Step::Done(Ok((session_index, info))),
        Step::Done(Err(error)) => Step::Done(Err(error)),
    }
}

/// The same step without the session's index.
pub open spec fn without_index<'a>(step: SessionStep<'a>) -> SessionInfoStep<'a> {
    match step {
        Step::Ask(message) => Step::Ask(message),
        Step::Done(Ok((_, info))) => Step::Done(Ok(info)),
        Step::Done(Err(error)) => Step::Done(Err(error)),
    }
}

/// How a query for the session of a block goes on once there is a step of the query for the
/// session's index: where the index is known, the query for its info begins.
pub open spec fn goes_on<'a>(
    first: Step<Result<SessionIndex, Error>>,
    before: RuntimeInfoView,
    parent: BlockHash,
    step: SessionStep<'a>,
    after: RuntimeInfoView,
) -> bool {
    match first {
        Step::Ask(message) => {
            &&& after == before
            &&& step == SessionStep::<'a>::Ask(message)
        },
        Step::Done(Err(error)) => {
            &&& after == before
            &&& step == SessionStep::<'a>::Done(Err(error))
        },
        Step::Done(Ok(index)) => exists|second: SessionInfoStep<'a>| #[trigger]
            info_step(before, parent, index, None, second, after) && step == with_index(
                index,
                second,
            ),
    }
}

/// How a query for the session of a block proceeds: the session's index first, then its info.
pub open spec fn session_step<'a>(
    before: RuntimeInfoView,
    parent: BlockHash,
    event: SessionEvent,
    step: SessionStep<'a>,
    after: RuntimeInfoView,
) -> bool {
    match event {
        SessionEvent::Start => exists|
            first: Step<Result<SessionIndex, Error>>,
            between: RuntimeInfoView,
        | #[trigger]
            index_step(before, parent, None, first, between) && goes_on(
                first,
                between,
                parent,
                step,
                after,
            ),
        SessionEvent::Index(reply) => exists|
            first: Step<Result<SessionIndex, Error>>,
            between: RuntimeInfoView,
        | #[trigger]
            index_step(before, parent, Some(reply), first, between) && goes_on(
                first,
                between,
                parent,
                step,
                after,
            ),
        SessionEvent::Info(index, reply) => exists|second: SessionInfoStep<'a>| #[trigger]
            info_step(before, parent, index, Some(reply), second, after) && step == with_index(
                index,
                second,
            ),
    }
}

/// Whether `checked` is where the check of a signature stands when the query for the session
/// of the block stands at `step`.
pub open spec fn signature_step<'a, Payload>(
    step: SessionStep<'a>,
    parent: BlockHash,
    signed: UncheckedSigned<Payload>,
    checked: SignatureStep<Payload>,
) -> bool {
    match step {
        Step::Ask(message) => checked == SignatureStep::Ask(message, signed),
        Step::Done(Err(error)) => checked == SignatureStep::<Payload>::Done(Err(error)),
        Step::Done(Ok((_, None))) => checked == SignatureStep::<Payload>::Done(Ok(None)),
        Step::Done(Ok((index, Some(info)))) => {
            &&& checked matches SignatureStep::Done(Ok(Some(result)))
            &&& checked_as(
                signed,
                well_signed(index, info.session_info, parent@, signed),
                result,
            )
        },
    }
}

/// Whether the cache of session indices, if it was given one, ended as long as its limit lets
/// it.
pub open spec fn indices_grew(
    before: RuntimeInfoView,
    parent: BlockHash,
    reply: Option<Reply<SessionIndex>>,
    after: RuntimeInfoView,
) -> bool {
    match reply {
        Some(reply) => reply.outcome() is Ok ==> as_long_as_allowed(
            before.indices,
            before.index_limit,
            parent@,
            after.indices,
        ),
        None => true,
    }
}

/// Whether the cache of sessions, if it was given one, ended as long as its limit lets it.
pub open spec fn sessions_grew(
    before: RuntimeInfoView,
    session_index: SessionIndex,
    reply: Option<Reply<Option<SessionInfo>>>,
    after: RuntimeInfoView,
) -> bool {
    match reply {
        Some(reply) => reply.outcome() matches Ok(Some(_)) ==> as_long_as_allowed(
            before.sessions,
            before.info_limit,
            session_index,
            after.sessions,
        ),
        None => true,
    }
}

/// Whether the cache that an event has something for ended as long as its limit lets it.
pub open spec fn caches_grew(
    before: RuntimeInfoView,
    parent: BlockHash,
    event: SessionEvent,
    after: RuntimeInfoView,
) -> bool {
    match event {
        SessionEvent::Start => true,
        SessionEvent::Index(reply) => indices_grew(before, parent, Some(reply), after),
        SessionEvent::Info(index, reply) => sessions_grew(before, index, Some(reply), after),
    }
}

/// What is held after a step of the query for a session index, where the cache ended as long
/// as its limit lets it.
pub open spec fn after_index(
    before: RuntimeInfoView,
    parent: BlockHash,
    reply: Option<Reply<SessionIndex>>,
) -> RuntimeInfoView {
    match reply {
        None => before.with_indices(touched(before.indices, parent@)),
        Some(reply) => match reply.outcome() {
            Ok(index) => before.with_indices(
                stored(before.indices, before.index_limit, parent@, index),
            ),
            Err(_) => before,
        },
    }
}

/// Whether info that came for a session is handed out and is the session now cached as the
/// most recently used, next to what was there.
pub open spec fn info_is_kept<'a>(
    before: RuntimeInfoView,
    session_index: SessionIndex,
    reply: Option<Reply<Option<SessionInfo>>>,
    step: SessionInfoStep<'a>,
    after: RuntimeInfoView,
) -> bool {
    match reply {
        Some(reply) => reply.outcome() matches Ok(Some(session_info)) ==> {
            &&& step matches Step::Done(Ok(Some(info)))
            &&& info.session_info == session_info
            &&& describes(before.keystore, session_info, info.validator_info)
            &&& after == before.with_sessions(
                stored(before.sessions, before.info_limit, session_index, *info),
            )
        },
        None => true,
    }
}

/// What a step of the query for a session index does: the query proceeds, and an answer is put
/// into the cache.
pub open spec fn index_call(
    before: RuntimeInfo,
    parent: BlockHash,
    reply: Option<Reply<SessionIndex>>,
    step: Step<Result<SessionIndex, Error>>,
    after: RuntimeInfo,
) -> bool {
    &&& index_step(before@, parent, reply, step, after@)
    &&& match reply {
        Some(reply) => reply.outcome() matches Ok(index) ==> before.stores_index(
            parent,
            index,
            after@.indices,
        ),
        None => true,
    }
}

/// What a step of the query for the info of a session does: the query proceeds, and an answer
/// is extended by who we are, put into the cache and, if the cache took it, handed out.
pub open spec fn info_call<'a>(
    before: RuntimeInfo,
    parent: BlockHash,
    session_index: SessionIndex,
    reply: Option<Reply<Option<SessionInfo>>>,
    step: SessionInfoStep<'a>,
    after: RuntimeInfo,
) -> bool {
    &&& info_step(before@, parent, session_index, reply, step, after@)
    &&& match reply {
        Some(reply) => reply.outcome() matches Ok(Some(session_info)) ==> exists|
            info: ExtendedSessionInfo,
            taken: bool,
        |
            {
                &&& info.session_info == session_info
                &&& describes(before@.keystore, session_info, info.validator_info)
                &&& #[trigger] before.stores_session(session_index, info, taken, after@.sessions)
                &&& step == Step::Done(
                    Ok::<Option<&'a ExtendedSessionInfo>, Error>(
                        if taken {
                            Some(&info)
                        } else {
                            None
                        },
                    ),
                )
            },
        None => true,
    }
}

/// What a step of the query for the session of a block does: it is a step of the query for the
/// session's index or its info.
pub open spec fn session_call<'a>(
    before: RuntimeInfo,
    parent: BlockHash,
    event: SessionEvent,
    step: SessionStep<'a>,
    after: RuntimeInfo,
) -> bool {
    &&& session_step(before@, parent, event, step, after@)
    &&& match event {
        SessionEvent::Start => true,
        SessionEvent::Index(reply) => reply.outcome() matches Ok(index) ==> before.stores_index(
            parent,
            index,
            after@.indices,
        ),
        SessionEvent::Info(index, reply) => exists|second: SessionInfoStep<'a>| #[trigger]
            info_call(before, parent, index, Some(reply), second, after) && step == with_index(
                index,
                second,
            ),
    }
}

/// Whether the cache of session indices gets the memory for what a reply has for it.
pub open spec fn index_has_memory(
    before: RuntimeInfo,
    parent: BlockHash,
    reply: Option<Reply<SessionIndex>>,
) -> bool {
    match reply {
        Some(reply) => reply.outcome() is Ok ==> before.has_memory_for_index(parent),
        None => true,
    }
}

/// Whether the cache of sessions gets the memory for what a reply has for it.
pub open spec fn info_has_memory(
    before: RuntimeInfo,
    session_index: SessionIndex,
    reply: Option<Reply<Option<SessionInfo>>>,
) -> bool {
    match reply {
        Some(reply) => reply.outcome() matches Ok(Some(_)) ==> before.has_memory_for_session(
            session_index,
        ),
        None => true,
    }
}

/// Whether the cache that an event has something for gets the memory for it.
pub open spec fn session_has_memory(
    before: RuntimeInfo,
    parent: BlockHash,
    event: SessionEvent,
) -> bool {
    match event {
        SessionEvent::Start => true,
        SessionEvent::Index(reply) => index_has_memory(before, parent, Some(reply)),
        SessionEvent::Info(index, reply) => info_has_memory(before, index, Some(reply)),
    }
}

/// A cache of session indices that gets the memory ends as long as its limit lets it.
pub proof fn lemma_index_call_grows(
    before: RuntimeInfo,
    parent: BlockHash,
    reply: Option<Reply<SessionIndex>>,
    step: Step<Result<SessionIndex, Error>>,
    after: RuntimeInfo,
)
    requires
        index_call(before, parent, reply, step, after),
        index_has_memory(before, parent, reply),
    ensures
        indices_grew(before@, parent, reply, after@),
{
}

/// A cache of sessions that gets the memory ends as long as its limit lets it.
pub proof fn lemma_info_call_grows<'a>(
    before: RuntimeInfo,
    parent: BlockHash,
    session_index: SessionIndex,
    reply: Option<Reply<Option<SessionInfo>>>,
    step: SessionInfoStep<'a>,
    after: RuntimeInfo,
)
    requires
        info_call(before, parent, session_index, reply, step, after),
        info_has_memory(before, session_index, reply),
    ensures
        sessions_grew(before@, session_index, reply, after@),
{
}

/// A cache that gets the memory for what an event has for it ends as long as its limit lets it.
pub proof fn lemma_session_call_grows<'a>(
    before: RuntimeInfo,
    parent: BlockHash,
    event: SessionEvent,
    step: SessionStep<'a>,
    after: RuntimeInfo,
)
    requires
        session_call(before, parent, event, step, after),
        session_has_memory(before, parent, event),
    ensures
        caches_grew(before@, parent, event, after@),
{
    if let SessionEvent::Info(index, reply) = event {
        let second = choose|second: SessionInfoStep<'a>| #[trigger]
            info_call(before, parent, index, Some(reply), second, after) && step == with_index(
                index,
                second,
            );
        lemma_info_call_grows(before, parent, index, Some(reply), second, after);
    }
}

impl RuntimeInfo {
    /// What is held.
    pub closed spec fn view(&self) -> RuntimeInfoView {
        RuntimeInfoView {
            indices: index_entries(self.session_index_cache),
            index_limit: index_limit(self.session_index_cache),
            sessions: info_entries(self.session_info_cache),
            info_limit: info_limit(self.session_info_cache),
            keystore: self.keystore,
        }
    }

    /// Whether the cache of session indices can come to hold `indices` when `index` is put
    /// into it for a block.
    pub closed spec fn stores_index(
        self,
        parent: BlockHash,
        index: SessionIndex,
        indices: Seq<(Seq<u8>, SessionIndex)>,
    ) -> bool {
        exists|taken: bool, map: SessionIndexCache| #[trigger]
            self.session_index_cache.inserts(parent, index, taken, map) && indices
                == index_entries(map)
    }

    /// Whether the cache of sessions can come to hold `sessions` when `info` is put into it,
    /// where `taken` says whether it took that.
    pub closed spec fn stores_session(
        self,
        session_index: SessionIndex,
        info: ExtendedSessionInfo,
        taken: bool,
        sessions: Seq<(SessionIndex, ExtendedSessionInfo)>,
    ) -> bool {
        exists|map: SessionInfoCache| #[trigger]
            self.session_info_cache.inserts(session_index, info, taken, map) && sessions
                == info_entries(map)
    }

    /// Whether the cache of session indices gets the memory for one of a block: however the
    /// insertion goes, the cache ends as long as its limit lets it.
    pub closed spec fn has_memory_for_index(self, parent: BlockHash) -> bool {
        self.session_index_cache.has_memory_for(parent)
    }

    /// Whether the cache of sessions gets the memory for one: however the insertion goes, the
    /// cache ends as long as its limit lets it.
    pub closed spec fn has_memory_for_session(self, session_index: SessionIndex) -> bool {
        self.session_info_cache.has_memory_for(session_index)
    }

    /// The map of session indices.
    pub closed spec fn index_map(self) -> SessionIndexCache {
        self.session_index_cache
    }

    /// The map of sessions.
    pub closed spec fn session_map(self) -> SessionInfoCache {
        self.session_info_cache
    }

    /// What is held is what the maps hold.
    pub proof fn lemma_maps(self)
        ensures
            self@.indices == index_entries(self.index_map()),
            self@.index_limit == index_limit(self.index_map()),
            self@.sessions == info_entries(self.session_map()),
            self@.info_limit == info_limit(self.session_map()),
    {
    }

    /// A session index is stored by a call that inserts it.
    pub(crate) proof fn lemma_stores_index(
        self,
        parent: BlockHash,
        index: SessionIndex,
        indices: Seq<(Seq<u8>, SessionIndex)>,
    )
        ensures
            self.stores_index(parent, index, indices) <==> exists|
                taken: bool,
                map: SessionIndexCache,
            |
                {
                    &&& #[trigger] call_ensures(
                        SessionIndexCache::insert,
                        (self.index_map(), parent, index),
                        (map, taken),
                    )
                    &&& indices == index_entries(map)
                },
    {
        assert forall|taken: bool, map: SessionIndexCache| #[trigger]
            self.session_index_cache.inserts(parent, index, taken, map) == call_ensures(
                SessionIndexCache::insert,
                (self.index_map(), parent, index),
                (map, taken),
            ) by {
            self.session_index_cache.lemma_inserts(parent, index, taken, map);
        }
        if exists|taken: bool, map: SessionIndexCache|
            {
                &&& #[trigger] call_ensures(
                    SessionIndexCache::insert,
                    (self.index_map(), parent, index),
                    (map, taken),
                )
                &&& indices == index_entries(map)
            } {
            let (taken, map) = choose|taken: bool, map: SessionIndexCache|
                {
                    &&& #[trigger] call_ensures(
                        SessionIndexCache::insert,
                        (self.index_map(), parent, index),
                        (map, taken),
                    )
                    &&& indices == index_entries(map)
                };
            assert(self.session_index_cache.inserts(parent, index, taken, map));
        }
    }

    /// A session is stored by a call that inserts it.
    pub(crate) proof fn lemma_stores_session(
        self,
        session_index: SessionIndex,
        info: ExtendedSessionInfo,
        taken: bool,
        sessions: Seq<(SessionIndex, ExtendedSessionInfo)>,
    )
        ensures
            self.stores_session(session_index, info, taken, sessions) <==> exists|
                map: SessionInfoCache,
            |
                {
                    &&& #[trigger] call_ensures(
                        SessionInfoCache::insert,
                        (self.session_map(), session_index, info),
                        (map, taken),
                    )
                    &&& sessions == info_entries(map)
                },
    {
        assert forall|map: SessionInfoCache| #[trigger]
            self.session_info_cache.inserts(session_index, info, taken, map) == call_ensures(
                SessionInfoCache::insert,
                (self.session_map(), session_index, info),
                (map, taken),
            ) by {
            self.session_info_cache.lemma_inserts(session_index, info, taken, map);
        }
        if exists|map: SessionInfoCache|
            {
                &&& #[trigger] call_ensures(
                    SessionInfoCache::insert,
                    (self.session_map(), session_index, info),
                    (map, taken),
                )
                &&& sessions == info_entries(map)
            } {
            let map = choose|map: SessionInfoCache|
                {
                    &&& #[trigger] call_ensures(
                        SessionInfoCache::insert,
                        (self.session_map(), session_index, info),
                        (map, taken),
                    )
                    &&& sessions == info_entries(map)
                };
            assert(self.session_info_cache.inserts(session_index, info, taken, map));
        }
    }

    /// There is memory for a session index where no call that inserts one falls short.
    pub(crate) proof fn lemma_memory_for_index(self, parent: BlockHash)
        ensures
            self.has_memory_for_index(parent) <==> forall|
                index: SessionIndex,
                taken: bool,
                map: SessionIndexCache,
            | #[trigger]
                call_ensures(
                    SessionIndexCache::insert,
                    (self.index_map(), parent, index),
                    (map, taken),
                ) ==> as_long_as_allowed(
                    self@.indices,
                    self@.index_limit,
                    parent@,
                    index_entries(map),
                ),
    {
        let cache = self.session_index_cache;
        assert forall|index: SessionIndex, taken: bool, map: SessionIndexCache| #[trigger]
            cache.inserts(parent, index, taken, map) == call_ensures(
                SessionIndexCache::insert,
                (self.index_map(), parent, index),
                (map, taken),
            ) by {
            cache.lemma_inserts(parent, index, taken, map);
        }
        if self.has_memory_for_index(parent) {
            assert forall|index: SessionIndex, taken: bool, map: SessionIndexCache| #[trigger]
                call_ensures(
                    SessionIndexCache::insert,
                    (self.index_map(), parent, index),
                    (map, taken),
                ) implies as_long_as_allowed(
                self@.indices,
                self@.index_limit,
                parent@,
                index_entries(map),
            ) by {
                assert(cache.inserts(parent, index, taken, map));
            }
        }
    }

    /// There is memory for a session where no call that inserts it falls short.
    pub(crate) proof fn lemma_memory_for_session(self, session_index: SessionIndex)
        ensures
            self.has_memory_for_session(session_index) <==> forall|
                info: ExtendedSessionInfo,
                taken: bool,
                map: SessionInfoCache,
            | #[trigger]
                call_ensures(
                    SessionInfoCache::insert,
                    (self.session_map(), session_index, info),
                    (map, taken),
                ) ==> as_long_as_allowed(
                    self@.sessions,
                    self@.info_limit,
                    session_index,
                    info_entries(map),
                ),
    {
        let cache = self.session_info_cache;
        assert forall|info: ExtendedSessionInfo, taken: bool, map: SessionInfoCache| #[trigger]
            cache.inserts(session_index, info, taken, map) == call_ensures(
                SessionInfoCache::insert,
                (self.session_map(), session_index, info),
                (map, taken),
            ) by {
            cache.lemma_inserts(session_index, info, taken, map);
        }
        if self.has_memory_for_session(session_index) {
            assert forall|info: ExtendedSessionInfo, taken: bool, map: SessionInfoCache| #[trigger]
                call_ensures(
                    SessionInfoCache::insert,
                    (self.session_map(), session_index, info),
                    (map, taken),
                ) implies as_long_as_allowed(
                self@.sessions,
                self@.info_limit,
                session_index,
                info_entries(map),
            ) by {
                assert(cache.inserts(session_index, info, taken, map));
            }
        }
    }

    /// With a keystore, or none, and the default configuration for the rest.
    pub fn new(keystore: Option<Keystore>) -> (info: Self)
        ensures
            info@.indices.len() == 0,
            info@.index_limit == 10,
            info@.sessions.len() == 0,
            info@.info_limit == 2,
            info@.keystore == keystore,
            info@.wf(),
    {
        Self::new_with_config(Config { keystore, ..Default::default() })
    }

    /// With a configuration.
    pub fn new_with_config(cfg: Config) -> (info: Self)
        ensures
            info@.indices.len() == 0,
            info@.index_limit == (if cfg.session_cache_lru_size > 10 {
                cfg.session_cache_lru_size
            } else {
                10
            }),
            info@.sessions.len() == 0,
            info@.info_limit == cfg.session_cache_lru_size,
            info@.keystore == cfg.keystore,
            info@.wf(),
    {
        let index_cache_size: u32 = if cfg.session_cache_lru_size > 10 {
            cfg.session_cache_lru_size
        } else {
            10
        };
        RuntimeInfo {
            session_index_cache: SessionIndexCache::new(index_cache_size),
            session_info_cache: SessionInfoCache::new(cfg.session_cache_lru_size),
            keystore: cfg.keystore,
        }
    }

    /// The session index expected at any child of the block `parent`, which need not be that
    /// of `parent` itself.
    pub fn get_session_index_for_child(
        &mut self,
        parent: BlockHash,
        reply: Option<Reply<SessionIndex>>,
    ) -> (step: Step<Result<SessionIndex, Error>>)
        ensures
            index_call(*old(self), parent, reply, step, *final(self)),
            index_has_memory(*old(self), parent, reply) ==> final(self)@ == after_index(
                old(self)@,
                parent,
                reply,
            ),
            old(self)@.wf() ==> final(self)@.wf(),
    {
        match reply {
            None => {
                proof {
                    if self@.wf() {
                        lemma_touched_wf(self@.indices, self@.index_limit, parent@);
                    }
                }
                match self.session_index_cache.get(&parent) {
                    Some(index) => Step::Done(Ok(index)),
                    None => Step::Ask(
                        RuntimeApiMessage {
                            relay_parent: parent,
                            request: RuntimeApiRequest::SessionIndexForChild,
                        },
                    ),
                }
            },
            Some(reply) => match recv_runtime(reply) {
                Ok(index) => {
                    let ghost before = self@;
                    let taken = self.session_index_cache.store(parent, index);
                    proof {
                        let (indices, limit) = (before.indices, before.index_limit);
                        if before.wf() {
                            lemma_put_wf(indices, limit, parent@, index, taken, self@.indices);
                        }
                        if as_long_as_allowed(indices, limit, parent@, self@.indices) {
                            lemma_stored(indices, limit, parent@, index, taken, self@.indices);
                        }
                    }
                    Step::Done(Ok(index))
                },
                Err(error) => Step::Done(Err(error)),
            },
        }
    }

    /// The session expected at any child of a block: its index, and its info.
    fn session_for_child<'a>(&'a mut self, relay_parent: BlockHash, event: SessionEvent) -> (step:
        SessionStep<'a>)
        ensures
            session_call(*old(self), relay_parent, event, step, *final(self)),
            session_has_memory(*old(self), relay_parent, event) && old(self)@.info_limit
                > 0 ==> !(step matches Step::Done(Ok((_, None)))),
            old(self)@.wf() ==> final(self)@.wf(),
    {
        let (session_index, reply) = match event {
            SessionEvent::Start => match self.get_session_index_for_child(relay_parent, None) {
                Step::Ask(message) => return Step::Ask(message),
                Step::Done(Err(error)) => return Step::Done(Err(error)),
                Step::Done(Ok(index)) => (index, None),
            },
            SessionEvent::Index(reply) => match self.get_session_index_for_child(
                relay_parent,
                Some(reply),
            ) {
                Step::Ask(message) => return Step::Ask(message),
                Step::Done(Err(error)) => return Step::Done(Err(error)),
                Step::Done(Ok(index)) => (index, None),
            },
            SessionEvent::Info(index, reply) => (index, Some(reply)),
        };
        match self.get_session_info_by_index(relay_parent, session_index, reply) {
            Step::Ask(message) => Step::Ask(message),
            Step::Done(Ok(info)) => Step::Done(Ok((session_index, info))),
            Step::Done(Err(error)) => Step::Done(Err(error)),
        }
    }

    /// The info of the session expected at any child of a block.
    pub fn get_session_info<'a>(&'a mut self, relay_parent: BlockHash, event: SessionEvent) -> (
    step: SessionInfoStep<'a>)
        ensures
            exists|session: SessionStep<'a>| #[trigger]
                session_call(*old(self), relay_parent, event, session, *final(self)) && step
                    == without_index(session),
            session_has_memory(*old(self), relay_parent, event) && old(self)@.info_limit
                > 0 ==> !(step matches Step::Done(Ok(None))),
            old(self)@.wf() ==> final(self)@.wf(),
    {
        match self.session_for_child(relay_parent, event) {
            Step::Ask(message) => Step::Ask(message),
            Step::Done(Ok((_, info))) => Step::Done(Ok(info)),
            Step::Done(Err(error)) => Step::Done(Err(error)),
        }
    }

    /// Checks the signature of something signed by a validator of the session expected at any
    /// child of a block. The length of the signed data, which is the payload and 36 bytes, must
    /// fit into 32 bits.
    pub fn check_signature<Payload>(
        &mut self,
        relay_parent: BlockHash,
        event: SessionEvent,
        signed: UncheckedSigned<Payload>,
    ) -> (checked: SignatureStep<Payload>)
        requires
            signed.encoded@.len() + 36 <= u32::MAX,
        ensures
            exists|session: SessionStep<'_>| #[trigger]
                session_call(*old(self), relay_parent, event, session, *final(self))
                    && signature_step(session, relay_parent, signed, checked),
            session_has_memory(*old(self), relay_parent, event) && old(self)@.info_limit
                > 0 ==> !(checked matches SignatureStep::Done(Ok(None))),
            old(self)@.wf() ==> final(self)@.wf(),
    {
        match self.session_for_child(relay_parent, event) {
            Step::Ask(message) => SignatureStep::Ask(message, signed),
            Step::Done(Err(error)) => SignatureStep::Done(Err(error)),
            Step::Done(Ok((_, None))) => SignatureStep::Done(Ok(None)),
            Step::Done(Ok((index, Some(info)))) => SignatureStep::Done(
                Ok(Some(check_signature(index, &info.session_info, relay_parent, signed))),
            ),
        }
    }

    /// The info of a session by its index. The runtime is asked in the state of `parent`.
    pub fn get_session_info_by_index<'a>(
        &'a mut self,
        parent: BlockHash,
        session_index: SessionIndex,
        reply: Option<Reply<Option<SessionInfo>>>,
    ) -> (step: SessionInfoStep<'a>)
        ensures
            info_call(*old(self), parent, session_index, reply, step, *final(self)),
            info_has_memory(*old(self), session_index, reply) && old(self)@.info_limit
                > 0 ==> info_is_kept(old(self)@, session_index, reply, step, final(self)@),
            old(self)@.wf() ==> final(self)@.wf(),
    {
        match reply {
            None => {
                proof {
                    lemma_touched(self@.sessions, session_index);
                    if self@.wf() {
                        lemma_touched_wf(self@.sessions, self@.info_limit, session_index);
                    }
                }
                if self.session_info_cache.get(session_index).is_none() {
                    return Step::Ask(
                        RuntimeApiMessage {
                            relay_parent: parent,
                            request: RuntimeApiRequest::SessionInfo(session_index),
                        },
                    );
                }
            },
            Some(reply) => {
                let session_info = match recv_runtime(reply) {
                    Ok(Some(session_info)) => session_info,
                    Ok(None) => return Step::Done(Err(Error::NoSuchSession(session_index))),
                    Err(error) => return Step::Done(Err(error)),
                };
                let validator_info = self.get_validator_info(&session_info);
                let full_info = ExtendedSessionInfo { session_info, validator_info };
                let ghost before = self@;
                let taken = self.session_info_cache.store(session_index, full_info);
                proof {
                    let (sessions, limit) = (before.sessions, before.info_limit);
                    lemma_put(sessions, limit, session_index, full_info, taken, self@.sessions);
                    assert(old(self).stores_session(
                        session_index,
                        full_info,
                        taken,
                        self@.sessions,
                    ));
                    if as_long_as_allowed(sessions, limit, session_index, self@.sessions) {
                        lemma_stored(
                            sessions,
                            limit,
                            session_index,
                            full_info,
                            taken,
                            self@.sessions,
                        );
                    }
                    if before.wf() {
                        lemma_put_wf(
                            sessions,
                            limit,
                            session_index,
                            full_info,
                            taken,
                            self@.sessions,
                        );
                    }
                }
            },
        }
        Step::Done(Ok(self.session_info_cache.get(session_index)))
    }

    /// Who we are in a session.
    pub fn get_validator_info(&self, session_info: &SessionInfo) -> (info: ValidatorInfo)
        ensures
            describes(self@.keystore, *session_info, info),
    {
        validator_info(session_info, self.get_our_index(&session_info.validators))
    }

    /// Our index among the validators, if we are one of them.
    pub fn get_our_index(&self, validators: &Vec<ValidatorId>) -> (index: Option<ValidatorIndex>)
        ensures
            is_our_index(self@.keystore, validators@, index),
    {
        our_index(&self.keystore, validators)
    }
}

} // verus!
