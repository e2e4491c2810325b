//! What the caches hold after any number of calls: what was used most recently.

use vstd::prelude::*;

use crate::error::{Error, Reply};
use crate::info::{
    caches_grew, goes_on, index_call, index_has_memory, index_step, indices_grew, info_call,
    info_has_memory, info_is_kept, info_step, lemma_index_call_grows, lemma_info_call_grows,
    lemma_session_call_grows, session_call, session_has_memory, session_step, sessions_grew,
    with_index, RuntimeInfo, RuntimeInfoView, SessionEvent, SessionInfoStep, SessionStep,
};
use crate::lru::{
    first_at, has_key, lemma_moved_to_front, lemma_position, lemma_position_unique, lemma_stored,
    lookup, position, put, stored, touched, wf,
};
use crate::request::{RuntimeApiRequest, Step};
use crate::types::{BlockHash, SessionIndex, SessionInfo};
use crate::validator::{describes, ExtendedSessionInfo};

verus! {

/// The entries with one brought to the front, or added there.
pub open spec fn brought_to_front<K, V>(entries: Seq<(K, V)>, key: K, value: V) -> Seq<(K, V)> {
    if has_key(entries, key) {
        seq![(key, value)] + entries.remove(position(entries, key))
    } else {
        seq![(key, value)] + entries
    }
}

/// Every key that was ever used, with what it was last used for, in the order of the last
/// use, the most recent first.
pub open spec fn by_last_use<K, V>(uses: Seq<(K, V)>) -> Seq<(K, V)>
    decreases uses.len(),
{
    if uses.len() == 0 {
        Seq::empty()
    } else {
        brought_to_front(by_last_use(uses.drop_last()), uses.last().0, uses.last().1)
    }
}

/// The first `n` of a sequence, or all of it.
pub open spec fn at_most<T>(s: Seq<T>, n: nat) -> Seq<T> {
    if s.len() <= n {
        s
    } else {
        s.take(n as int)
    }
}

/// The `n` keys used most recently.
pub open spec fn most_recent<K, V>(uses: Seq<(K, V)>, n: nat) -> Seq<(K, V)> {
    at_most(by_last_use(uses), n)
}

/// The keys that were used.
pub open spec fn used_keys<K, V>(uses: Seq<(K, V)>) -> Set<K> {
    uses.map_values(|used: (K, V)| used.0).to_set()
}

/// A call of a `RuntimeInfo`, with what came back. A query for the session of a block stands
/// for the check of a signature as well, which makes the same steps.
pub enum Call<'a> {
    /// A step of the query for a session index.
    Index(BlockHash, Option<Reply<SessionIndex>>, Step<Result<SessionIndex, Error>>),
    /// A step of the query for the info of a session.
    Info(BlockHash, SessionIndex, Option<Reply<Option<SessionInfo>>>, SessionInfoStep<'a>),
    /// A step of the query for the session of a block.
    Session(BlockHash, SessionEvent, SessionStep<'a>),
}

impl<'a> Call<'a> {
    /// Whether the call can lead from one state to the other, with what it does to the caches.
    pub open spec fn made(self, before: RuntimeInfo, after: RuntimeInfo) -> bool {
        match self {
            Call::Index(parent, reply, step) => index_call(before, parent, reply, step, after),
            Call::Info(parent, index, reply, step) => info_call(
                before,
                parent,
                index,
                reply,
                step,
                after,
            ),
            Call::Session(parent, event, step) => session_call(before, parent, event, step, after),
        }
    }

    /// Whether the cache that the call has something for gets the memory for it.
    pub open spec fn has_memory(self, before: RuntimeInfo) -> bool {
        match self {
            Call::Index(parent, reply, _) => index_has_memory(before, parent, reply),
            Call::Info(_, index, reply, _) => info_has_memory(before, index, reply),
            Call::Session(parent, event, _) => session_has_memory(before, parent, event),
        }
    }

    /// Whether the call can lead from what is held to what is held.
    pub open spec fn leads(self, before: RuntimeInfoView, after: RuntimeInfoView) -> bool {
        match self {
            Call::Index(parent, reply, step) => index_step(before, parent, reply, step, after),
            Call::Info(parent, index, reply, step) => info_step(
                before,
                parent,
                index,
                reply,
                step,
                after,
            ),
            Call::Session(parent, event, step) => session_step(before, parent, event, step, after),
        }
    }

    /// Whether the cache that the call has something for ended as long as its limit lets it.
    pub open spec fn grew(self, before: RuntimeInfoView, after: RuntimeInfoView) -> bool {
        match self {
            Call::Index(parent, reply, _) => indices_grew(before, parent, reply, after),
            Call::Info(_, index, reply, _) => sessions_grew(before, index, reply, after),
            Call::Session(parent, event, _) => caches_grew(before, parent, event, after),
        }
    }

    /// The session that the call hands out, if it does.
    pub open spec fn session_use(self) -> Seq<(SessionIndex, ExtendedSessionInfo)> {
        match self {
            Call::Info(_, index, _, Step::Done(Ok(Some(info)))) => seq![(index, *info)],
            Call::Session(_, _, Step::Done(Ok((index, Some(info))))) => seq![(index, *info)],
            _ => Seq::empty(),
        }
    }

    /// The session that the call looks for in the cache, if it does.
    pub open spec fn looked_for(self) -> Option<SessionIndex> {
        match self {
            Call::Info(_, index, None, _) => Some(index),
            Call::Session(_, SessionEvent::Info(_, _), _) => None,
            Call::Session(_, _, Step::Done(Ok((index, _)))) => Some(index),
            Call::Session(_, _, Step::Ask(message)) => match message.request {
                RuntimeApiRequest::SessionInfo(index) => Some(index),
                _ => None,
            },
            _ => None,
        }
    }

    /// The session of which the call comes with what the runtime said, if it does.
    pub open spec fn session_reply(self) -> Option<SessionIndex> {
        match self {
            Call::Info(_, index, Some(_), _) => Some(index),
            Call::Session(_, SessionEvent::Info(index, _), _) => Some(index),
            _ => None,
        }
    }

    /// The block for which the call comes with a reply on its session index, if it does.
    pub open spec fn index_reply(self) -> Option<Seq<u8>> {
        match self {
            Call::Index(parent, Some(_), _) => Some(parent@),
            Call::Session(parent, SessionEvent::Index(_), _) => Some(parent@),
            _ => None,
        }
    }

    /// Whether the call, if it is for a session, asks for nothing and ends as `step` does.
    pub open spec fn repeats(self, session_index: SessionIndex, step: SessionInfoStep<'a>) -> bool {
        match self {
            Call::Index(_, _, _) => true,
            Call::Info(_, index, _, found) => index == session_index ==> found == step,
            Call::Session(_, _, Step::Ask(message)) => message.request
                != RuntimeApiRequest::SessionInfo(session_index),
            Call::Session(_, _, Step::Done(Ok((index, found)))) => index == session_index
                ==> step == SessionInfoStep::<'a>::Done(Ok(found)),
            Call::Session(_, _, Step::Done(Err(_))) => true,
        }
    }

    /// Whether the call, if it looks for the session index of a block, finds that one and does
    /// not ask for it.
    pub open spec fn repeats_index(self, parent: BlockHash, index: SessionIndex) -> bool {
        match self {
            Call::Index(block, _, step) => block@ == parent@ ==> step == Step::Done(
                Ok::<SessionIndex, Error>(index),
            ),
            Call::Session(block, SessionEvent::Start, step) => block@ == parent@ ==> match step {
                Step::Ask(message) => message.request == RuntimeApiRequest::SessionInfo(index),
                Step::Done(Ok((found, _))) => found == index,
                Step::Done(Err(_)) => false,
            },
            _ => true,
        }
    }

    /// Whether the call looks for no session that the entries do not have, and waits for none.
    pub open spec fn keeps_to(self, sessions: Seq<(SessionIndex, ExtendedSessionInfo)>) -> bool {
        &&& self.session_reply() is None
        &&& match self.looked_for() {
            Some(index) => has_key(sessions, index),
            None => true,
        }
    }

    /// Whether the call asks for no session, and hands out what the entries have.
    pub open spec fn served_from(
        self,
        sessions: Seq<(SessionIndex, ExtendedSessionInfo)>,
    ) -> bool {
        match self {
            Call::Index(_, _, _) => true,
            Call::Info(_, index, _, step) => match lookup(sessions, index) {
                Some(info) => step == SessionInfoStep::<'a>::Done(Ok(Some(&info))),
                None => false,
            },
            Call::Session(_, _, Step::Ask(message)) => message.request
                == RuntimeApiRequest::SessionIndexForChild,
            Call::Session(_, _, Step::Done(Ok((index, found)))) => match (
                lookup(sessions, index),
                found,
            ) {
                (Some(info), Some(found)) => *found == info,
                _ => false,
            },
            Call::Session(_, _, Step::Done(Err(_))) => true,
        }
    }

    /// The session index that the call finds for a block, if it does.
    pub open spec fn index_use(self) -> Seq<(Seq<u8>, SessionIndex)> {
        match self {
            Call::Index(parent, _, Step::Done(Ok(index))) => seq![(parent@, index)],
            Call::Session(_, SessionEvent::Info(_, _), _) => Seq::empty(),
            Call::Session(parent, _, Step::Done(Ok((index, _)))) => seq![(parent@, index)],
            Call::Session(parent, _, Step::Ask(message)) => match message.request {
                RuntimeApiRequest::SessionInfo(index) => seq![(parent@, index)],
                _ => Seq::empty(),
            },
            _ => Seq::empty(),
        }
    }
}

/// Whether the calls, one after the other, can lead through the states.
pub open spec fn run<'a>(states: Seq<RuntimeInfo>, calls: Seq<Call<'a>>) -> bool {
    &&& states.len() == calls.len() + 1
    &&& forall|i: int|
        0 <= i < calls.len() ==> (#[trigger] calls[i]).made(states[i], states[i + 1])
}

/// Whether the caches got the memory for all that the calls had for them.
pub open spec fn memory_sufficed<'a>(states: Seq<RuntimeInfo>, calls: Seq<Call<'a>>) -> bool {
    forall|i: int| 0 <= i < calls.len() ==> (#[trigger] calls[i]).has_memory(states[i])
}

/// The sessions that the calls hand out, in their order.
pub open spec fn session_uses<'a>(calls: Seq<Call<'a>>) -> Seq<(SessionIndex, ExtendedSessionInfo)>
    decreases calls.len(),
{
    if calls.len() == 0 {
        Seq::empty()
    } else {
        session_uses(calls.drop_last()) + calls.last().session_use()
    }
}

/// The session indices that the calls find, in their order.
pub open spec fn index_uses<'a>(calls: Seq<Call<'a>>) -> Seq<(Seq<u8>, SessionIndex)>
    decreases calls.len(),
{
    if calls.len() == 0 {
        Seq::empty()
    } else {
        index_uses(calls.drop_last()) + calls.last().index_use()
    }
}

/// No key is listed twice by its last use.
pub proof fn lemma_by_last_use_distinct<K, V>(uses: Seq<(K, V)>)
    ensures
        wf(by_last_use(uses), by_last_use(uses).len()),
    decreases uses.len(),
{
    if uses.len() > 0 {
        let list = by_last_use(uses.drop_last());
        let (key, value) = uses.last();
        lemma_by_last_use_distinct(uses.drop_last());
        if has_key(list, key) {
            lemma_position(list, key);
            lemma_moved_to_front(list, position(list, key), value);
        } else {
            let longer = brought_to_front(list, key, value);
            assert forall|i: int, j: int| 0 <= i < j < longer.len() implies #[trigger] longer[i].0
                != #[trigger] longer[j].0 by {
                assert(longer[j] == list[j - 1]);
                if i > 0 {
                    assert(longer[i] == list[i - 1]);
                }
            }
        }
    }
}

/// A map that holds the most recent entries still does after one is put in.
proof fn lemma_stored_is_recent<K, V>(list: Seq<(K, V)>, n: nat, key: K, value: V)
    requires
        wf(list, list.len()),
    ensures
        at_most(brought_to_front(list, key, value), n) == stored(at_most(list, n), n, key, value),
{
    let held = at_most(list, n);
    let longer = brought_to_front(list, key, value);
    if has_key(list, key) {
        lemma_position(list, key);
        let p = position(list, key);
        if p < held.len() {
            assert(first_at(held, key, p));
            lemma_position_unique(held, key, p);
            assert(at_most(longer, n) =~= stored(held, n, key, value));
        } else {
            assert(!has_key(held, key)) by {
                if has_key(held, key) {
                    let i = choose|i: int| 0 <= i < held.len() && #[trigger] held[i].0 == key;
                    assert(list[i].0 == key);
                }
            }
            assert(at_most(longer, n) =~= stored(held, n, key, value));
        }
    } else {
        assert(!has_key(held, key)) by {
            if has_key(held, key) {
                let i = choose|i: int| 0 <= i < held.len() && #[trigger] held[i].0 == key;
                assert(list[i].0 == key);
            }
        }
        assert(at_most(longer, n) =~= stored(held, n, key, value));
    }
}

/// Putting an entry in a map that holds the most recent ones.
proof fn lemma_use_by_put<K, V>(uses: Seq<(K, V)>, n: nat, key: K, value: V)
    ensures
        most_recent(uses.push((key, value)), n) == stored(most_recent(uses, n), n, key, value),
{
    lemma_by_last_use_distinct(uses);
    lemma_stored_is_recent(by_last_use(uses), n, key, value);
    assert(uses.push((key, value)).drop_last() =~= uses);
}

/// Looking an entry up in a map that holds the most recent ones.
proof fn lemma_use_by_lookup<K, V>(uses: Seq<(K, V)>, n: nat, key: K)
    requires
        has_key(most_recent(uses, n), key),
    ensures
        most_recent(uses.push((key, lookup(most_recent(uses, n), key)->0)), n) == touched(
            most_recent(uses, n),
            key,
        ),
{
    let held = most_recent(uses, n);
    lemma_use_by_put(uses, n, key, lookup(held, key)->0);
    lemma_position(held, key);
    assert(touched(held, key) =~= stored(held, n, key, lookup(held, key)->0));
}

/// A step of the query for a session index keeps the most recently used ones.
proof fn lemma_index_step_is_recent(
    before: RuntimeInfoView,
    parent: BlockHash,
    reply: Option<Reply<SessionIndex>>,
    step: Step<Result<SessionIndex, Error>>,
    after: RuntimeInfoView,
    uses: Seq<(Seq<u8>, SessionIndex)>,
)
    requires
        index_step(before, parent, reply, step, after),
        indices_grew(before, parent, reply, after),
        before.indices == most_recent(uses, before.index_limit),
    ensures
        after.indices == most_recent(
            uses + (match step {
                Step::Done(Ok(index)) => seq![(parent@, index)],
                _ => Seq::empty(),
            }),
            before.index_limit,
        ),
        after.sessions == before.sessions,
        after.index_limit == before.index_limit,
        after.info_limit == before.info_limit,
{
    let n = before.index_limit;
    assert(uses + Seq::empty() =~= uses);
    match reply {
        None => if has_key(before.indices, parent@) {
            let index = lookup(before.indices, parent@)->0;
            lemma_use_by_lookup(uses, n, parent@);
            assert(uses + seq![(parent@, index)] =~= uses.push((parent@, index)));
        },
        Some(reply) => if let Ok(index) = reply.outcome() {
            let taken = choose|taken: bool| #[trigger]
                put(before.indices, n, parent@, index, taken, after.indices);
            lemma_stored(before.indices, n, parent@, index, taken, after.indices);
            lemma_use_by_put(uses, n, parent@, index);
            assert(uses + seq![(parent@, index)] =~= uses.push((parent@, index)));
        },
    }
}

/// Info that came is kept where the cache ends as long as its limit lets it and has room for
/// any session.
pub proof fn lemma_info_is_kept<'a>(
    before: RuntimeInfoView,
    parent: BlockHash,
    session_index: SessionIndex,
    reply: Option<Reply<Option<SessionInfo>>>,
    step: SessionInfoStep<'a>,
    after: RuntimeInfoView,
)
    requires
        info_step(before, parent, session_index, reply, step, after),
        sessions_grew(before, session_index, reply, after),
        before.info_limit > 0,
    ensures
        info_is_kept(before, session_index, reply, step, after),
{
    if let Some(reply) = reply {
        if let Ok(Some(session_info)) = reply.outcome() {
            let (info, taken) = choose|info: ExtendedSessionInfo, taken: bool|
                {
                    &&& info.session_info == session_info
                    &&& describes(
                        before.keystore,
                        session_info,
                        info.validator_info,
                    )
                    &&& #[trigger] put(
                        before.sessions,
                        before.info_limit,
                        session_index,
                        info,
                        taken,
                        after.sessions,
                    )
                    &&& step == Step::Done(
                        Ok::<Option<&'a ExtendedSessionInfo>, Error>(
                            if taken {
                                Some(&info)
                            } else {
                                None
                            },
                        ),
                    )
                };
            lemma_stored(
                before.sessions,
                before.info_limit,
                session_index,
                info,
                taken,
                after.sessions,
            );
        }
    }
}

/// A step of the query for the info of a session keeps the most recently used ones.
proof fn lemma_info_step_is_recent<'a>(
    before: RuntimeInfoView,
    parent: BlockHash,
    session_index: SessionIndex,
    reply: Option<Reply<Option<SessionInfo>>>,
    step: SessionInfoStep<'a>,
    after: RuntimeInfoView,
    uses: Seq<(SessionIndex, ExtendedSessionInfo)>,
)
    requires
        info_step(before, parent, session_index, reply, step, after),
        sessions_grew(before, session_index, reply, after),
        before.sessions == most_recent(uses, before.info_limit),
    ensures
        after.sessions == most_recent(
            uses + Call::Info(parent, session_index, reply, step).session_use(),
            before.info_limit,
        ),
        after.indices == before.indices,
        after.index_limit == before.index_limit,
        after.info_limit == before.info_limit,
{
    let n = before.info_limit;
    assert(uses + Seq::empty() =~= uses);
    match reply {
        None => if has_key(before.sessions, session_index) {
            let info = lookup(before.sessions, session_index)->0;
            lemma_use_by_lookup(uses, n, session_index);
            assert(uses + seq![(session_index, info)] =~= uses.push((session_index, info)));
        },
        Some(given) => if let Ok(Some(session_info)) = given.outcome() {
            if n > 0 {
                lemma_info_is_kept(before, parent, session_index, reply, step, after);
                let info = *(step->Done_0->Ok_0->Some_0);
                lemma_use_by_put(uses, n, session_index, info);
                assert(uses + seq![(session_index, info)] =~= uses.push((session_index, info)));
            } else {
                let (info, taken) = choose|info: ExtendedSessionInfo, taken: bool|
                    {
                        &&& #[trigger] put(
                            before.sessions,
                            before.info_limit,
                            session_index,
                            info,
                            taken,
                            after.sessions,
                        )
                        &&& step == Step::Done(
                            Ok::<Option<&'a ExtendedSessionInfo>, Error>(
                                if taken {
                                    Some(&info)
                                } else {
                                    None
                                },
                            ),
                        )
                    };
                assert(!has_key(before.sessions, session_index));
            }
        },
    }
}

/// The parts that a query for the session of a block is made of.
pub proof fn lemma_parts<'a>(
    call: Call<'a>,
    before: RuntimeInfoView,
    after: RuntimeInfoView,
) -> (parts: (Step<Result<SessionIndex, Error>>, RuntimeInfoView, SessionInfoStep<'a>))
    requires
        call.leads(before, after),
    ensures
        match call {
            Call::Session(parent, SessionEvent::Info(index, reply), step) => {
                &&& info_step(before, parent, index, Some(reply), parts.2, after)
                &&& step == with_index(index, parts.2)
            },
            Call::Session(parent, event, step) => {
                let reply = match event {
                    SessionEvent::Index(reply) => Some(reply),
                    _ => None,
                };
                &&& index_step(before, parent, reply, parts.0, parts.1)
                &&& goes_on(parts.0, parts.1, parent, step, after)
                &&& match parts.0 {
                    Step::Done(Ok(index)) => {
                        &&& info_step(parts.1, parent, index, None, parts.2, after)
                        &&& step == with_index(index, parts.2)
                    },
                    _ => true,
                }
            },
            _ => true,
        },
{
    match call {
        Call::Session(parent, SessionEvent::Info(index, reply), step) => {
            let second = choose|second: SessionInfoStep<'a>| #[trigger]
                info_step(before, parent, index, Some(reply), second, after) && step == with_index(
                    index,
                    second,
                );
            (Step::Done(Ok(index)), before, second)
        },
        Call::Session(parent, event, step) => {
            let reply = match event {
                SessionEvent::Index(reply) => Some(reply),
                _ => None,
            };
            let (first, between) = choose|
                first: Step<Result<SessionIndex, Error>>,
                between: RuntimeInfoView,
            | #[trigger]
                index_step(before, parent, reply, first, between) && goes_on(
                    first,
                    between,
                    parent,
                    step,
                    after,
                );
            let index = first->Done_0->Ok_0;
            let second = choose|second: SessionInfoStep<'a>| #[trigger]
                info_step(between, parent, index, None, second, after) && step == with_index(
                    index,
                    second,
                );
            (first, between, second)
        },
        _ => (arbitrary(), before, arbitrary()),
    }
}

/// A call that gets the memory leaves the cache as long as its limit lets it.
pub proof fn lemma_call_grows<'a>(call: Call<'a>, before: RuntimeInfo, after: RuntimeInfo)
    requires
        call.made(before, after),
        call.has_memory(before),
    ensures
        call.leads(before@, after@),
        call.grew(before@, after@),
{
    match call {
        Call::Index(parent, reply, step) => {
            lemma_index_call_grows(before, parent, reply, step, after);
        },
        Call::Info(parent, index, reply, step) => {
            lemma_info_call_grows(before, parent, index, reply, step, after);
        },
        Call::Session(parent, event, step) => {
            lemma_session_call_grows(before, parent, event, step, after);
        },
    }
}

/// A call keeps the most recently used session indices and sessions.
pub proof fn lemma_call_is_recent<'a>(
    call: Call<'a>,
    before: RuntimeInfoView,
    after: RuntimeInfoView,
    indices: Seq<(Seq<u8>, SessionIndex)>,
    sessions: Seq<(SessionIndex, ExtendedSessionInfo)>,
)
    requires
        call.leads(before, after),
        call.grew(before, after),
        before.indices == most_recent(indices, before.index_limit),
        before.sessions == most_recent(sessions, before.info_limit),
    ensures
        after.indices == most_recent(indices + call.index_use(), before.index_limit),
        after.sessions == most_recent(sessions + call.session_use(), before.info_limit),
        after.index_limit == before.index_limit,
        after.info_limit == before.info_limit,
{
    assert(indices + Seq::empty() =~= indices);
    assert(sessions + Seq::empty() =~= sessions);
    let (first, between, second) = lemma_parts(call, before, after);
    match call {
        Call::Index(parent, reply, step) => {
            lemma_index_step_is_recent(before, parent, reply, step, after, indices);
        },
        Call::Info(parent, index, reply, step) => {
            lemma_info_step_is_recent(before, parent, index, reply, step, after, sessions);
        },
        Call::Session(parent, SessionEvent::Info(index, reply), step) => {
            lemma_info_step_is_recent(
                before,
                parent,
                index,
                Some(reply),
                second,
                after,
                sessions,
            );
        },
        Call::Session(parent, event, step) => {
            let reply = match event {
                SessionEvent::Index(reply) => Some(reply),
                _ => None,
            };
            assert(after.indices == between.indices);
            lemma_index_step_is_recent(before, parent, reply, first, between, indices);
            if let Step::Done(Ok(index)) = first {
                lemma_info_step_is_recent(
                    between,
                    parent,
                    index,
                    None,
                    second,
                    after,
                    sessions,
                );
            }
        },
    }
}

/// By its last use, a key stands behind exactly the other keys used since.
pub proof fn lemma_place_by_last_use<K, V>(
    earlier: Seq<(K, V)>,
    key: K,
    value: V,
    later: Seq<(K, V)>,
)
    requires
        !used_keys(later).contains(key),
    ensures
        used_keys(later).finite(),
        ({
            let list = by_last_use(earlier.push((key, value)) + later);
            let p = used_keys(later).len() as int;
            &&& p < list.len()
            &&& list[p] == (key, value)
            &&& forall|i: int| 0 <= i < p ==> used_keys(later).contains(#[trigger] list[i].0)
            &&& forall|other: K| #[trigger]
                used_keys(later).contains(other) ==> exists|i: int|
                    0 <= i < p && #[trigger] list[i].0 == other
        }),
    decreases later.len(),
{
    let uses = earlier.push((key, value)) + later;
    let keys = later.map_values(|used: (K, V)| used.0);
    lemma_by_last_use_distinct(uses.drop_last());
    if later.len() == 0 {
        assert(uses =~= earlier.push((key, value)));
        assert(uses.drop_last() =~= earlier);
        assert(used_keys(later) =~= Set::empty());
        let list = by_last_use(earlier);
        if has_key(list, key) {
            lemma_position(list, key);
        }
    } else {
        let before = later.drop_last();
        let (new, new_value) = later.last();
        let old_keys = used_keys(before);
        assert(uses.drop_last() =~= earlier.push((key, value)) + before);
        assert(used_keys(later) =~= old_keys.insert(new)) by {
            let earlier_keys = before.map_values(|used: (K, V)| used.0);
            assert(keys =~= earlier_keys.push(new));
            assert forall|other: K| keys.to_set().contains(other) <==> #[trigger]
                earlier_keys.to_set().insert(new).contains(other) by {
                if keys.to_set().contains(other) {
                    let i = choose|i: int| 0 <= i < keys.len() && keys[i] == other;
                    if i < earlier_keys.len() {
                        assert(earlier_keys[i] == other);
                    }
                }
                if earlier_keys.to_set().contains(other) {
                    let i = choose|i: int| 0 <= i < earlier_keys.len() && earlier_keys[i] == other;
                    assert(keys[i] == other);
                }
                if other == new {
                    assert(keys[keys.len() - 1] == other);
                }
            }
        }
        assert(used_keys(later).contains(new));
        assert(!old_keys.contains(key)) by {
            assert(old_keys.contains(key) ==> used_keys(later).contains(key));
        }
        lemma_place_by_last_use(earlier, key, value, before);
        let list = by_last_use(uses.drop_last());
        let q = old_keys.len() as int;
        let next = by_last_use(uses);
        assert(next == brought_to_front(list, new, new_value));
        if old_keys.contains(new) {
            let i = choose|i: int| 0 <= i < q && #[trigger] list[i].0 == new;
            assert(first_at(list, new, i));
            lemma_position_unique(list, new, i);
            assert(used_keys(later) =~= old_keys);
            assert(next[q] == list[q]);
            assert forall|j: int| 0 <= j < q implies used_keys(later).contains(
                #[trigger] next[j].0,
            ) by {
                if j > 0 {
                    assert(next[j] == list[if j - 1 < i {
                        j - 1
                    } else {
                        j
                    }]);
                }
            }
            assert forall|other: K| #[trigger] used_keys(later).contains(other) implies exists|
                j: int,
            |
                0 <= j < q && #[trigger] next[j].0 == other by {
                let j = choose|j: int| 0 <= j < q && #[trigger] list[j].0 == other;
                if j < i {
                    assert(next[j + 1].0 == other);
                } else if j == i {
                    assert(next[0].0 == other);
                } else {
                    assert(next[j].0 == other);
                }
            }
        } else {
            if has_key(list, new) {
                lemma_position(list, new);
                let p = position(list, new);
                assert(p > q) by {
                    if p < q {
                        assert(old_keys.contains(list[p].0));
                    }
                }
            }
            assert(used_keys(later).len() == q + 1);
            assert(next[q + 1] == list[q]);
            assert forall|j: int| 0 <= j < q + 1 implies used_keys(later).contains(
                #[trigger] next[j].0,
            ) by {
                if j > 0 {
                    assert(next[j] == list[j - 1]);
                }
            }
            assert forall|other: K| #[trigger] used_keys(later).contains(other) implies exists|
                j: int,
            |
                0 <= j < q + 1 && #[trigger] next[j].0 == other by {
                if other == new {
                    assert(next[0].0 == other);
                } else {
                    let j = choose|j: int| 0 <= j < q && #[trigger] list[j].0 == other;
                    assert(next[j + 1].0 == other);
                }
            }
        }
    }
}

} // verus!
