//! What holds of the library as a whole.

use vstd::prelude::*;

use crate::error::{Error, Reply};
use crate::history::{
    by_last_use, index_uses, lemma_by_last_use_distinct, lemma_call_grows, lemma_call_is_recent,
    lemma_info_is_kept, lemma_parts, lemma_place_by_last_use, memory_sufficed,
    most_recent, run, session_uses, used_keys, Call,
};
use crate::info::{
    goes_on, index_call, index_has_memory, index_step, info_call, info_has_memory, info_step,
    lemma_index_call_grows, lemma_info_call_grows, lemma_session_call_grows, session_call,
    session_has_memory, session_step, signature_step, with_index, RuntimeInfo, RuntimeInfoView,
    SessionEvent, SessionInfoStep, SessionStep, SignatureStep,
};
use crate::keystore::Keystore;
use crate::lru::{
    as_long_as_allowed, first_at, has_key, lemma_position, lemma_position_unique, lemma_put,
    lemma_put_wf, lemma_stored, lemma_touched, lemma_touched_wf, lookup, position, put, touched,
    wf,
};
use crate::mode::{mode_for, not_supported, votes_for, ProspectiveParachainsMode};
use crate::queries::occupied;
use crate::request::{RuntimeApiMessage, RuntimeApiRequest, Step};
use crate::signature::{little_endian, signing_data, well_signed, UncheckedSigned};
use crate::types::{
    AsyncBackingParams, BlockHash, CoreState, GroupIndex, SessionIndex, SessionInfo,
    ValidatorIndex,
};
use crate::validator::{describes, first_group, ExtendedSessionInfo, ValidatorInfo};

verus! {

/// Where no key occurs twice, an entry is what its key's lookup finds.
proof fn lemma_lookup_at<K, V>(entries: Seq<(K, V)>, limit: nat, i: int)
    requires
        wf(entries, limit),
        0 <= i < entries.len(),
    ensures
        has_key(entries, entries[i].0),
        lookup(entries, entries[i].0) == Some(entries[i].1),
{
    assert(first_at(entries, entries[i].0, i));
    lemma_position_unique(entries, entries[i].0, i);
}

/// A lookup of one key leaves what is found under any other as it is.
pub proof fn touching_changes_no_answer<K, V>(entries: Seq<(K, V)>, limit: nat, key: K, other: K)
    requires
        wf(entries, limit),
    ensures
        lookup(touched(entries, key), other) == lookup(entries, other),
        touched(entries, key).len() == entries.len(),
{
    lemma_touched(entries, key);
    if has_key(entries, key) {
        lemma_position(entries, key);
    }
    if has_key(entries, key) && other != key {
        lemma_touched_wf(entries, limit, key);
        let p = position(entries, key);
        let after = touched(entries, key);
        if has_key(entries, other) {
            lemma_position(entries, other);
            let q = position(entries, other);
            let to: int = if q < p {
                q + 1
            } else {
                q
            };
            assert(after[to] == entries[q]);
            lemma_lookup_at(after, limit, to);
        } else if has_key(after, other) {
            let i = choose|i: int| 0 <= i < after.len() && #[trigger] after[i].0 == other;
            let from: int = if i == 0 {
                p
            } else if i - 1 < p {
                i - 1
            } else {
                i
            };
            assert(after[i] == entries[from]);
        }
    }
}

/// Putting an entry in never changes the value under another key: it is the same as before,
/// or gone.
pub proof fn putting_forges_no_answer<K, V>(
    before: Seq<(K, V)>,
    limit: nat,
    key: K,
    value: V,
    taken: bool,
    after: Seq<(K, V)>,
    other: K,
)
    requires
        wf(before, limit),
        put(before, limit, key, value, taken, after),
        other != key,
        has_key(after, other),
    ensures
        lookup(after, other) == lookup(before, other),
{
    lemma_put_wf(before, limit, key, value, taken, after);
    lemma_position(after, other);
    let i = position(after, other);
    lemma_lookup_at(after, limit, i);
    if has_key(before, key) {
        lemma_position(before, key);
        let p = position(before, key);
        let from: int = if i - 1 < p {
            i - 1
        } else {
            i
        };
        assert(after[i] == before[from]);
        lemma_lookup_at(before, limit, from);
    } else if limit == 0 {
    } else {
        let from: int = if taken {
            i - 1
        } else {
            i
        };
        assert(after[i] == before[from]);
        lemma_lookup_at(before, limit, from);
    }
}

/// What makes room leaves in the order of its last use: where an entry stays, every entry
/// used more recently stays too.
pub proof fn the_least_recently_used_leaves_first<K, V>(
    before: Seq<(K, V)>,
    limit: nat,
    key: K,
    value: V,
    taken: bool,
    after: Seq<(K, V)>,
    newer: int,
    older: int,
)
    requires
        wf(before, limit),
        put(before, limit, key, value, taken, after),
        0 <= newer < older < before.len(),
        before[older].0 != key,
        has_key(after, before[older].0),
        before[newer].0 != key,
    ensures
        lookup(after, before[newer].0) == Some(before[newer].1),
{
    lemma_put_wf(before, limit, key, value, taken, after);
    if has_key(before, key) {
        lemma_position(before, key);
        let p = position(before, key);
        let to: int = if newer < p {
            newer + 1
        } else {
            newer
        };
        assert(after[to] == before[newer]);
        lemma_lookup_at(after, limit, to);
    } else {
        lemma_position(after, before[older].0);
        let i = position(after, before[older].0);
        let shift: int = if taken {
            1
        } else {
            0
        };
        assert(after[i] == before[i - shift]);
        assert(i - shift == older);
        assert(after[newer + shift] == before[newer]);
        lemma_lookup_at(after, limit, newer + shift);
    }
}

/// A session index that the runtime gave is not forgotten for another: as long as the cache
/// holds it, the next query for the block gives it back without a request, and a cache that
/// does not hold it asks again.
pub proof fn a_session_index_is_remembered(
    before: RuntimeInfoView,
    parent: BlockHash,
    reply: Reply<SessionIndex>,
    first: Step<Result<SessionIndex, Error>>,
    between: RuntimeInfoView,
    second: Step<Result<SessionIndex, Error>>,
    after: RuntimeInfoView,
)
    requires
        reply.outcome() is Ok,
        index_step(before, parent, Some(reply), first, between),
        index_step(between, parent, None, second, after),
    ensures
        first == Step::Done(reply.outcome()),
        has_key(between.indices, parent@) ==> second == first,
        !has_key(between.indices, parent@) ==> second is Ask,
{
    let index = reply.outcome()->Ok_0;
    let taken = choose|taken: bool| #[trigger]
        put(before.indices, before.index_limit, parent@, index, taken, between.indices);
    lemma_put(before.indices, before.index_limit, parent@, index, taken, between.indices);
}

/// A query that the cache answers is answered the same way again, and the second time
/// changes nothing at all.
pub proof fn a_cached_session_index_stays(
    before: RuntimeInfoView,
    parent: BlockHash,
    first: Step<Result<SessionIndex, Error>>,
    between: RuntimeInfoView,
    second: Step<Result<SessionIndex, Error>>,
    after: RuntimeInfoView,
)
    requires
        index_step(before, parent, None, first, between),
        index_step(between, parent, None, second, after),
    ensures
        second == first,
        after == between,
{
    lemma_touched(before.indices, parent@);
    assert(after =~= between);
}

/// A query for a session index keeps the cache of session indices in order.
proof fn lemma_index_step_wf(
    before: RuntimeInfoView,
    block: BlockHash,
    reply: Option<Reply<SessionIndex>>,
    step: Step<Result<SessionIndex, Error>>,
    after: RuntimeInfoView,
)
    requires
        wf(before.indices, before.index_limit),
        index_step(before, block, reply, step, after),
    ensures
        wf(after.indices, after.index_limit),
{
    let (indices, limit) = (before.indices, before.index_limit);
    match reply {
        None => lemma_touched_wf(indices, limit, block@),
        Some(reply) => if let Ok(index) = reply.outcome() {
            let taken = choose|taken: bool| #[trigger]
                put(indices, limit, block@, index, taken, after.indices);
            lemma_put_wf(indices, limit, block@, index, taken, after.indices);
        },
    }
}

/// A query for a session index that brings no reply for a block leaves what is cached of it as
/// it is, or makes it leave.
proof fn lemma_index_answer(
    before: RuntimeInfoView,
    block: BlockHash,
    reply: Option<Reply<SessionIndex>>,
    step: Step<Result<SessionIndex, Error>>,
    after: RuntimeInfoView,
    parent: BlockHash,
)
    requires
        wf(before.indices, before.index_limit),
        index_step(before, block, reply, step, after),
        reply is None || block@ != parent@,
        has_key(after.indices, parent@),
    ensures
        lookup(after.indices, parent@) == lookup(before.indices, parent@),
{
    let (indices, limit) = (before.indices, before.index_limit);
    match reply {
        None => touching_changes_no_answer(indices, limit, block@, parent@),
        Some(reply) => if let Ok(index) = reply.outcome() {
            let taken = choose|taken: bool| #[trigger]
                put(indices, limit, block@, index, taken, after.indices);
            putting_forges_no_answer(
                indices,
                limit,
                block@,
                index,
                taken,
                after.indices,
                parent@,
            );
        },
    }
}

/// A query for one block never makes up an answer for another: what is then found there was
/// there before.
pub proof fn blocks_do_not_interfere(
    before: RuntimeInfoView,
    parent: BlockHash,
    reply: Option<Reply<SessionIndex>>,
    step: Step<Result<SessionIndex, Error>>,
    after: RuntimeInfoView,
    other: BlockHash,
)
    requires
        before.wf(),
        other@ != parent@,
        index_step(before, parent, reply, step, after),
        has_key(after.indices, other@),
    ensures
        lookup(after.indices, other@) == lookup(before.indices, other@),
{
    lemma_index_answer(before, parent, reply, step, after, other);
}

/// The info of a session that the runtime gave is what the query hands out, extended by who
/// we are. As long as the cache holds it, the next query for that session hands the same out
/// without a request, whatever the block; a cache that does not hold it asks again.
pub proof fn a_session_info_is_remembered<'a>(
    before: RuntimeInfoView,
    parent: BlockHash,
    session_index: SessionIndex,
    reply: Reply<Option<SessionInfo>>,
    first: SessionInfoStep<'a>,
    between: RuntimeInfoView,
    other_parent: BlockHash,
    second: SessionInfoStep<'a>,
    after: RuntimeInfoView,
)
    requires
        reply.outcome() matches Ok(Some(_)),
        info_step(before, parent, session_index, Some(reply), first, between),
        info_step(between, other_parent, session_index, None, second, after),
    ensures
        first matches Step::Done(Ok(found)) && match found {
            Some(info) => {
                &&& Some(info.session_info) == reply.outcome()->Ok_0
                &&& describes(before.keystore, info.session_info, info.validator_info)
                &&& second == first
                &&& after == between
            },
            None => second is Ask,
        },
        has_key(between.sessions, session_index) <==> first->Done_0->Ok_0 is Some,
{
    let session_info = reply.outcome()->Ok_0->Some_0;
    let (info, taken) = choose|info: ExtendedSessionInfo, taken: bool|
        {
            &&& info.session_info == session_info
            &&& describes(before.keystore, session_info, info.validator_info)
            &&& #[trigger] put(
                before.sessions,
                before.info_limit,
                session_index,
                info,
                taken,
                between.sessions,
            )
            &&& first == Step::Done(
                Ok::<Option<&'a ExtendedSessionInfo>, Error>(
                    if taken {
                        Some(&info)
                    } else {
                        None
                    },
                ),
            )
        };
    lemma_put(before.sessions, before.info_limit, session_index, info, taken, between.sessions);
    if taken {
        assert(after =~= between);
    }
}

/// A query for the info of a session that brings no reply for another leaves what is cached of
/// that one as it is, or makes it leave.
proof fn lemma_session_answer<'a>(
    before: RuntimeInfoView,
    parent: BlockHash,
    index: SessionIndex,
    reply: Option<Reply<Option<SessionInfo>>>,
    step: SessionInfoStep<'a>,
    after: RuntimeInfoView,
    other: SessionIndex,
)
    requires
        wf(before.sessions, before.info_limit),
        info_step(before, parent, index, reply, step, after),
        reply is None || index != other,
        has_key(after.sessions, other),
    ensures
        lookup(after.sessions, other) == lookup(before.sessions, other),
{
    let (sessions, limit) = (before.sessions, before.info_limit);
    match reply {
        None => touching_changes_no_answer(sessions, limit, index, other),
        Some(reply) => if let Ok(Some(_)) = reply.outcome() {
            let (info, taken) = choose|info: ExtendedSessionInfo, taken: bool| #[trigger]
                put(sessions, limit, index, info, taken, after.sessions);
            putting_forges_no_answer(sessions, limit, index, info, taken, after.sessions, other);
        },
    }
}

/// A query for one session never makes up an answer for another: what is then found there
/// was there before.
pub proof fn sessions_do_not_interfere<'a>(
    before: RuntimeInfoView,
    parent: BlockHash,
    session_index: SessionIndex,
    reply: Option<Reply<Option<SessionInfo>>>,
    step: SessionInfoStep<'a>,
    after: RuntimeInfoView,
    other: SessionIndex,
)
    requires
        before.wf(),
        other != session_index,
        info_step(before, parent, session_index, reply, step, after),
        has_key(after.sessions, other),
    ensures
        lookup(after.sessions, other) == lookup(before.sessions, other),
{
    lemma_session_answer(before, parent, session_index, reply, step, after, other);
}

/// A session that was just used is the last to make room for a new one: as long as any
/// session but the new one stays cached, it does.
pub proof fn a_used_session_leaves_last<'a>(
    before: RuntimeInfoView,
    parent: BlockHash,
    used: SessionIndex,
    hit: SessionInfoStep<'a>,
    between: RuntimeInfoView,
    new: SessionIndex,
    reply: Reply<Option<SessionInfo>>,
    fetched: SessionInfoStep<'a>,
    after: RuntimeInfoView,
    survivor: SessionIndex,
)
    requires
        before.wf(),
        has_key(before.sessions, used),
        info_step(before, parent, used, None, hit, between),
        new != used,
        info_step(between, parent, new, Some(reply), fetched, after),
        survivor != new,
        has_key(after.sessions, survivor),
    ensures
        lookup(after.sessions, used) == lookup(before.sessions, used),
{
    let limit = before.info_limit;
    lemma_touched(before.sessions, used);
    lemma_touched_wf(before.sessions, limit, used);
    lemma_position(before.sessions, used);
    assert(between.sessions[0].0 == used);
    lemma_lookup_at(between.sessions, limit, 0);
    if let Ok(Some(_)) = reply.outcome() {
        let (info, taken) = choose|info: ExtendedSessionInfo, taken: bool| #[trigger]
            put(between.sessions, limit, new, info, taken, after.sessions);
        putting_forges_no_answer(
            between.sessions,
            limit,
            new,
            info,
            taken,
            after.sessions,
            survivor,
        );
        lemma_position(between.sessions, survivor);
        let older = position(between.sessions, survivor);
        if older != 0 {
            the_least_recently_used_leaves_first(
                between.sessions,
                limit,
                new,
                info,
                taken,
                after.sessions,
                0,
                older,
            );
        }
    }
}

/// A session that the runtime does not know is reported as such, and nothing is cached.
pub proof fn an_unknown_session_is_an_error<'a>(
    before: RuntimeInfoView,
    parent: BlockHash,
    session_index: SessionIndex,
    step: SessionInfoStep<'a>,
    after: RuntimeInfoView,
)
    requires
        info_step(
            before,
            parent,
            session_index,
            Some(Reply::Answered(Ok(None))),
            step,
            after,
        ),
    ensures
        step == SessionInfoStep::<'a>::Done(Err(Error::NoSuchSession(session_index))),
        after == before,
{
}

/// A query for the session of a block that fails leaves everything as it was.
pub proof fn a_failed_query_changes_nothing<'a>(
    before: RuntimeInfoView,
    parent: BlockHash,
    event: SessionEvent,
    step: SessionStep<'a>,
    after: RuntimeInfoView,
)
    requires
        session_step(before, parent, event, step, after),
        step matches Step::Done(Err(_)),
    ensures
        after == before,
{
}

/// A session whose index and info are both cached is handed out without a request.
pub proof fn a_cached_session_needs_no_request<'a>(
    before: RuntimeInfoView,
    parent: BlockHash,
    index: SessionIndex,
    info: ExtendedSessionInfo,
    step: SessionStep<'a>,
    after: RuntimeInfoView,
)
    requires
        lookup(before.indices, parent@) == Some(index),
        lookup(before.sessions, index) == Some(info),
        session_step(before, parent, SessionEvent::Start, step, after),
    ensures
        step == SessionStep::<'a>::Done(Ok((index, Some(&info)))),
{
}

/// A query for a session of which nothing is cached asks twice, for the index and for the
/// info of the session with that index, and hands out what came, unless the cache does not
/// keep it.
pub proof fn an_uncached_session_takes_two_requests<'a>(
    start: RuntimeInfoView,
    parent: BlockHash,
    first: SessionStep<'a>,
    asked: RuntimeInfoView,
    index: SessionIndex,
    second: SessionStep<'a>,
    known: RuntimeInfoView,
    session_info: SessionInfo,
    third: SessionStep<'a>,
    end: RuntimeInfoView,
)
    requires
        !has_key(start.indices, parent@),
        !has_key(start.sessions, index),
        session_step(start, parent, SessionEvent::Start, first, asked),
        session_step(
            asked,
            parent,
            SessionEvent::Index(Reply::Answered(Ok(index))),
            second,
            known,
        ),
        session_step(
            known,
            parent,
            SessionEvent::Info(index, Reply::Answered(Ok(Some(session_info)))),
            third,
            end,
        ),
    ensures
        asked == start,
        first == SessionStep::<'a>::Ask(
            RuntimeApiMessage {
                relay_parent: parent,
                request: RuntimeApiRequest::SessionIndexForChild,
            },
        ),
        second == SessionStep::<'a>::Ask(
            RuntimeApiMessage {
                relay_parent: parent,
                request: RuntimeApiRequest::SessionInfo(index),
            },
        ),
        third matches Step::Done(Ok((session, found))) && session == index && (found matches Some(
            info,
        ) ==> info.session_info == session_info),
{
    assert(start.with_indices(start.indices) =~= start);
}

/// A map that gets the memory to grow takes every new entry that it has room for, and gives
/// up one for it only where it is full: the least recently used.
pub proof fn nothing_leaves_but_for_room<K, V>(
    before: Seq<(K, V)>,
    limit: nat,
    key: K,
    value: V,
    taken: bool,
    after: Seq<(K, V)>,
)
    requires
        wf(before, limit),
        limit > 0,
        !has_key(before, key),
        put(before, limit, key, value, taken, after),
        as_long_as_allowed(before, limit, key, after),
    ensures
        taken,
        after == seq![(key, value)] + (if before.len() < limit {
            before
        } else {
            before.drop_last()
        }),
{
    lemma_stored(before, limit, key, value, taken, after);
}

/// A session index that the runtime gave is cached, where the cache gets the memory for it,
/// and the next query for the block gives it back without a request.
pub proof fn a_fetched_session_index_stays(
    before: RuntimeInfo,
    parent: BlockHash,
    reply: Reply<SessionIndex>,
    first: Step<Result<SessionIndex, Error>>,
    between: RuntimeInfo,
    second: Step<Result<SessionIndex, Error>>,
    after: RuntimeInfo,
)
    requires
        reply.outcome() is Ok,
        before@.index_limit > 0,
        index_call(before, parent, Some(reply), first, between),
        index_has_memory(before, parent, Some(reply)),
        index_call(between, parent, None, second, after),
    ensures
        first == Step::Done(reply.outcome()),
        lookup(between@.indices, parent@) == Some(reply.outcome()->Ok_0),
        second == first,
        after@ == between@,
{
    lemma_index_call_grows(before, parent, Some(reply), first, between);
    let (held, limit) = (before@.indices, before@.index_limit);
    let index = reply.outcome()->Ok_0;
    let taken = choose|taken: bool| #[trigger]
        put(held, limit, parent@, index, taken, between@.indices);
    lemma_put(held, limit, parent@, index, taken, between@.indices);
    lemma_stored(held, limit, parent@, index, taken, between@.indices);
    assert(after@ =~= between@);
}

/// The info of a session that the runtime gave is handed out and cached, where the cache gets
/// the memory for it, and the next query for the session hands it out without a request,
/// whatever the block.
pub proof fn a_fetched_session_stays<'a>(
    before: RuntimeInfo,
    parent: BlockHash,
    session_index: SessionIndex,
    reply: Reply<Option<SessionInfo>>,
    first: SessionInfoStep<'a>,
    between: RuntimeInfo,
    other_parent: BlockHash,
    second: SessionInfoStep<'a>,
    after: RuntimeInfo,
)
    requires
        reply.outcome() matches Ok(Some(_)),
        before@.info_limit > 0,
        info_call(before, parent, session_index, Some(reply), first, between),
        info_has_memory(before, session_index, Some(reply)),
        info_call(between, other_parent, session_index, None, second, after),
    ensures
        first matches Step::Done(Ok(Some(info))) && {
            &&& Some(info.session_info) == reply.outcome()->Ok_0
            &&& describes(before@.keystore, info.session_info, info.validator_info)
            &&& lookup(between@.sessions, session_index) == Some(*info)
        },
        second == first,
        after@ == between@,
{
    lemma_info_call_grows(before, parent, session_index, Some(reply), first, between);
    lemma_info_is_kept(before@, parent, session_index, Some(reply), first, between@);
    a_session_info_is_remembered(
        before@,
        parent,
        session_index,
        reply,
        first,
        between@,
        other_parent,
        second,
        after@,
    );
}

/// After any number of calls, caches that got the memory they needed hold exactly the session
/// indices and the sessions used most recently, as many as their limits let them.
pub proof fn the_most_recently_used_stay<'a>(
    states: Seq<RuntimeInfo>,
    calls: Seq<Call<'a>>,
)
    requires
        states.len() > 0,
        states[0]@.indices.len() == 0,
        states[0]@.sessions.len() == 0,
        run(states, calls),
        memory_sufficed(states, calls),
    ensures
        states.last()@.index_limit == states[0]@.index_limit,
        states.last()@.info_limit == states[0]@.info_limit,
        states.last()@.indices == most_recent(index_uses(calls), states[0]@.index_limit),
        states.last()@.sessions == most_recent(session_uses(calls), states[0]@.info_limit),
    decreases calls.len(),
{
    if calls.len() == 0 {
        assert(states.last()@.indices =~= Seq::empty());
        assert(states.last()@.sessions =~= Seq::empty());
    } else {
        let n = calls.len() - 1;
        let earlier = calls.drop_last();
        let shorter = states.drop_last();
        assert forall|i: int| 0 <= i < earlier.len() implies (#[trigger] earlier[i]).made(
            shorter[i],
            shorter[i + 1],
        ) && earlier[i].has_memory(shorter[i]) by {
            assert(calls[i].made(states[i], states[i + 1]));
        }
        the_most_recently_used_stay(shorter, earlier);
        assert(calls[n].made(states[n], states[n + 1]));
        lemma_call_grows(calls[n], states[n], states[n + 1]);
        lemma_call_is_recent(
            calls[n],
            states[n]@,
            states[n + 1]@,
            index_uses(earlier),
            session_uses(earlier),
        );
    }
}

/// Of the most recently used keys, one is there exactly where fewer others were used since.
proof fn lemma_held_by_last_use<K, V>(
    earlier: Seq<(K, V)>,
    key: K,
    value: V,
    later: Seq<(K, V)>,
    n: nat,
)
    requires
        !used_keys(later).contains(key),
    ensures
        lookup(most_recent(earlier.push((key, value)) + later, n), key) == (if used_keys(
            later,
        ).len() < n {
            Some(value)
        } else {
            None
        }),
{
    let uses = earlier.push((key, value)) + later;
    let list = by_last_use(uses);
    let held = most_recent(uses, n);
    let p = used_keys(later).len() as int;
    lemma_place_by_last_use(earlier, key, value, later);
    lemma_by_last_use_distinct(uses);
    if p < n {
        assert(held[p] == (key, value));
        lemma_lookup_at(held, held.len(), p);
    } else if has_key(held, key) {
        let i = choose|i: int| 0 <= i < held.len() && #[trigger] held[i].0 == key;
        assert(list[i].0 == list[p].0);
    }
}

/// A session index that was found for a block is still cached exactly as long as fewer other
/// blocks had theirs found since than session indices are kept, where the caches got the
/// memory they needed.
pub proof fn a_block_stays_while_fewer_others_are_used<'a>(
    states: Seq<RuntimeInfo>,
    calls: Seq<Call<'a>>,
    earlier: Seq<(Seq<u8>, SessionIndex)>,
    parent: BlockHash,
    index: SessionIndex,
    later: Seq<(Seq<u8>, SessionIndex)>,
    step: Step<Result<SessionIndex, Error>>,
    after: RuntimeInfoView,
)
    requires
        states.len() > 0,
        states[0]@.indices.len() == 0,
        states[0]@.sessions.len() == 0,
        run(states, calls),
        memory_sufficed(states, calls),
        index_uses(calls) == earlier.push((parent@, index)) + later,
        !used_keys(later).contains(parent@),
        index_step(states.last()@, parent, None, step, after),
    ensures
        step == (if used_keys(later).len() < states[0]@.index_limit {
            Step::Done(Ok::<SessionIndex, Error>(index))
        } else {
            Step::Ask(
                RuntimeApiMessage {
                    relay_parent: parent,
                    request: RuntimeApiRequest::SessionIndexForChild,
                },
            )
        }),
{
    the_most_recently_used_stay(states, calls);
    lemma_held_by_last_use(earlier, parent@, index, later, states[0]@.index_limit);
}

/// A session that was handed out is still cached exactly as long as fewer other sessions were
/// handed out since than sessions are kept, where the caches got the memory they needed.
pub proof fn a_session_stays_while_fewer_others_are_used<'a>(
    states: Seq<RuntimeInfo>,
    calls: Seq<Call<'a>>,
    earlier: Seq<(SessionIndex, ExtendedSessionInfo)>,
    session_index: SessionIndex,
    info: ExtendedSessionInfo,
    later: Seq<(SessionIndex, ExtendedSessionInfo)>,
    parent: BlockHash,
    step: SessionInfoStep<'a>,
    after: RuntimeInfoView,
)
    requires
        states.len() > 0,
        states[0]@.indices.len() == 0,
        states[0]@.sessions.len() == 0,
        run(states, calls),
        memory_sufficed(states, calls),
        session_uses(calls) == earlier.push((session_index, info)) + later,
        !used_keys(later).contains(session_index),
        info_step(states.last()@, parent, session_index, None, step, after),
    ensures
        step == (if used_keys(later).len() < states[0]@.info_limit {
            SessionInfoStep::<'a>::Done(Ok(Some(&info)))
        } else {
            SessionInfoStep::<'a>::Ask(
                RuntimeApiMessage {
                    relay_parent: parent,
                    request: RuntimeApiRequest::SessionInfo(session_index),
                },
            )
        }),
{
    the_most_recently_used_stay(states, calls);
    lemma_held_by_last_use(earlier, session_index, info, later, states[0]@.info_limit);
}

/// A lookup adds no key.
proof fn lemma_touched_keys<K, V>(entries: Seq<(K, V)>, key: K, other: K)
    requires
        has_key(touched(entries, key), other),
    ensures
        has_key(entries, other),
{
    let after = touched(entries, key);
    if has_key(entries, key) {
        lemma_position(entries, key);
        let p = position(entries, key);
        let i = choose|i: int| 0 <= i < after.len() && #[trigger] after[i].0 == other;
        let from: int = if i == 0 {
            p
        } else if i - 1 < p {
            i - 1
        } else {
            i
        };
        assert(after[i] == entries[from]);
    }
}

/// Putting an entry in adds no other key, and not that one where the map does not take it.
proof fn lemma_put_keys<K, V>(
    before: Seq<(K, V)>,
    limit: nat,
    key: K,
    value: V,
    taken: bool,
    after: Seq<(K, V)>,
    other: K,
)
    requires
        put(before, limit, key, value, taken, after),
        has_key(after, other),
    ensures
        has_key(before, other) || (taken && other == key),
{
    let i = choose|i: int| 0 <= i < after.len() && #[trigger] after[i].0 == other;
    if has_key(before, key) {
        lemma_position(before, key);
        if i > 0 {
            let from: int = if i - 1 < position(before, key) {
                i - 1
            } else {
                i
            };
            assert(after[i] == before[from]);
        }
    } else if limit > 0 {
        if !taken {
            assert(after[i] == before[i]);
        } else if i > 0 {
            assert(after[i] == before[i - 1]);
        }
    }
}

/// A key is among those used exactly where it was used before or is used last.
proof fn lemma_used_keys<K, V>(uses: Seq<(K, V)>, more: Seq<(K, V)>, key: K)
    ensures
        used_keys(uses).contains(key) ==> used_keys(uses + more).contains(key),
        used_keys(more).contains(key) ==> used_keys(uses + more).contains(key),
{
    let keys = uses.map_values(|used: (K, V)| used.0);
    let more_keys = more.map_values(|used: (K, V)| used.0);
    let all = (uses + more).map_values(|used: (K, V)| used.0);
    if used_keys(uses).contains(key) {
        let i = choose|i: int| 0 <= i < keys.len() && keys[i] == key;
        assert(all[i] == key);
    }
    if used_keys(more).contains(key) {
        let i = choose|i: int| 0 <= i < more_keys.len() && more_keys[i] == key;
        assert(all[uses.len() + i] == key);
    }
}

/// A step of the query for a session index caches one for no block but its own.
proof fn lemma_index_step_keys(
    before: RuntimeInfoView,
    block: BlockHash,
    reply: Option<Reply<SessionIndex>>,
    step: Step<Result<SessionIndex, Error>>,
    after: RuntimeInfoView,
    key: Seq<u8>,
)
    requires
        index_step(before, block, reply, step, after),
        has_key(after.indices, key),
        !has_key(before.indices, key),
    ensures
        key == block@,
        step matches Step::Done(Ok(_)),
{
    match reply {
        None => lemma_touched_keys(before.indices, block@, key),
        Some(reply) => if let Ok(index) = reply.outcome() {
            let taken = choose|taken: bool| #[trigger]
                put(before.indices, before.index_limit, block@, index, taken, after.indices);
            lemma_put_keys(
                before.indices,
                before.index_limit,
                block@,
                index,
                taken,
                after.indices,
                key,
            );
        },
    }
}

/// A step of the query for the info of a session caches no session but the one it hands out.
proof fn lemma_info_step_keys<'a>(
    before: RuntimeInfoView,
    parent: BlockHash,
    session_index: SessionIndex,
    reply: Option<Reply<Option<SessionInfo>>>,
    step: SessionInfoStep<'a>,
    after: RuntimeInfoView,
    key: SessionIndex,
)
    requires
        info_step(before, parent, session_index, reply, step, after),
        has_key(after.sessions, key),
        !has_key(before.sessions, key),
    ensures
        key == session_index,
        step matches Step::Done(Ok(Some(_))),
{
    match reply {
        None => lemma_touched_keys(before.sessions, session_index, key),
        Some(reply) => if let Ok(Some(_)) = reply.outcome() {
            let (info, taken) = choose|info: ExtendedSessionInfo, taken: bool|
                {
                    &&& #[trigger] put(
                        before.sessions,
                        before.info_limit,
                        session_index,
                        info,
                        taken,
                        after.sessions,
                    )
                    &&& step == Step::Done(
                        Ok::<Option<&'a ExtendedSessionInfo>, Error>(
                            if taken {
                                Some(&info)
                            } else {
                                None
                            },
                        ),
                    )
                };
            lemma_put_keys(
                before.sessions,
                before.info_limit,
                session_index,
                info,
                taken,
                after.sessions,
                key,
            );
        },
    }
}

/// A call caches nothing but what it finds or hands out.
proof fn lemma_new_is_used<'a>(call: Call<'a>, before: RuntimeInfoView, after: RuntimeInfoView)
    requires
        call.leads(before, after),
    ensures
        forall|key: Seq<u8>|
            #![trigger has_key(after.indices, key)]
            has_key(after.indices, key) && !has_key(before.indices, key) ==> used_keys(
                call.index_use(),
            ).contains(key),
        forall|key: SessionIndex|
            #![trigger has_key(after.sessions, key)]
            has_key(after.sessions, key) && !has_key(before.sessions, key) ==> used_keys(
                call.session_use(),
            ).contains(key),
{
    let (first, between, second) = lemma_parts(call, before, after);
    assert forall|key: Seq<u8>|
        #![trigger has_key(after.indices, key)]
        has_key(after.indices, key) && !has_key(before.indices, key) implies used_keys(
        call.index_use(),
    ).contains(key) by {
        let keys = call.index_use().map_values(|used: (Seq<u8>, SessionIndex)| used.0);
        match call {
            Call::Index(block, reply, step) => {
                lemma_index_step_keys(before, block, reply, step, after, key);
                assert(keys[0] == key);
            },
            Call::Info(_, _, _, _) => {},
            Call::Session(_, SessionEvent::Info(_, _), _) => {},
            Call::Session(block, event, step) => {
                let reply = match event {
                    SessionEvent::Index(reply) => Some(reply),
                    _ => None,
                };
                lemma_index_step_keys(before, block, reply, first, between, key);
                assert(keys[0] == key);
            },
        }
    }
    assert forall|key: SessionIndex|
        #![trigger has_key(after.sessions, key)]
        has_key(after.sessions, key) && !has_key(before.sessions, key) implies used_keys(
        call.session_use(),
    ).contains(key) by {
        let keys = call.session_use().map_values(
            |used: (SessionIndex, ExtendedSessionInfo)| used.0,
        );
        match call {
            Call::Index(_, _, _) => {},
            Call::Info(parent, index, reply, step) => {
                lemma_info_step_keys(before, parent, index, reply, step, after, key);
                assert(keys[0] == key);
            },
            Call::Session(parent, SessionEvent::Info(index, reply), step) => {
                lemma_info_step_keys(before, parent, index, Some(reply), second, after, key);
                assert(keys[0] == key);
            },
            Call::Session(parent, event, step) => {
                if let Step::Done(Ok(index)) = first {
                    lemma_info_step_keys(between, parent, index, None, second, after, key);
                    assert(keys[0] == key);
                }
            },
        }
    }
}

/// Nothing is cached but what was used, over any run of calls from empty caches.
pub proof fn only_what_was_used_is_cached<'a>(states: Seq<RuntimeInfo>, calls: Seq<Call<'a>>)
    requires
        states.len() > 0,
        states[0]@.indices.len() == 0,
        states[0]@.sessions.len() == 0,
        run(states, calls),
    ensures
        forall|parent: Seq<u8>|
            #![trigger has_key(states.last()@.indices, parent)]
            has_key(states.last()@.indices, parent) ==> used_keys(index_uses(calls)).contains(
                parent,
            ),
        forall|index: SessionIndex|
            #![trigger has_key(states.last()@.sessions, index)]
            has_key(states.last()@.sessions, index) ==> used_keys(session_uses(calls)).contains(
                index,
            ),
    decreases calls.len(),
{
    if calls.len() > 0 {
        let n = calls.len() - 1;
        let earlier = calls.drop_last();
        let shorter = states.drop_last();
        assert forall|i: int| 0 <= i < earlier.len() implies (#[trigger] earlier[i]).made(
            shorter[i],
            shorter[i + 1],
        ) by {
            assert(calls[i].made(states[i], states[i + 1]));
        }
        only_what_was_used_is_cached(shorter, earlier);
        assert(calls[n].made(states[n], states[n + 1]));
        let (before, after) = (states[n]@, states[n + 1]@);
        lemma_new_is_used(calls[n], before, after);
        assert forall|parent: Seq<u8>|
            #![trigger has_key(states.last()@.indices, parent)]
            has_key(states.last()@.indices, parent) implies used_keys(index_uses(calls)).contains(
            parent,
        ) by {
            lemma_used_keys(index_uses(earlier), calls[n].index_use(), parent);
            if has_key(before.indices, parent) {
                assert(has_key(shorter.last()@.indices, parent));
            }
        }
        assert forall|index: SessionIndex|
            #![trigger has_key(states.last()@.sessions, index)]
            has_key(states.last()@.sessions, index) implies used_keys(
            session_uses(calls),
        ).contains(index) by {
            lemma_used_keys(session_uses(earlier), calls[n].session_use(), index);
            if has_key(before.sessions, index) {
                assert(has_key(shorter.last()@.sessions, index));
            }
        }
    }
}

/// A query for the info of a session keeps the cache of sessions in order.
proof fn lemma_info_step_wf<'a>(
    before: RuntimeInfoView,
    parent: BlockHash,
    session_index: SessionIndex,
    reply: Option<Reply<Option<SessionInfo>>>,
    step: SessionInfoStep<'a>,
    after: RuntimeInfoView,
)
    requires
        wf(before.sessions, before.info_limit),
        info_step(before, parent, session_index, reply, step, after),
    ensures
        wf(after.sessions, after.info_limit),
{
    match reply {
        None => lemma_touched_wf(before.sessions, before.info_limit, session_index),
        Some(reply) => if let Ok(Some(_)) = reply.outcome() {
            let (info, taken) = choose|info: ExtendedSessionInfo, taken: bool| #[trigger]
                put(
                    before.sessions,
                    before.info_limit,
                    session_index,
                    info,
                    taken,
                    after.sessions,
                );
            lemma_put_wf(
                before.sessions,
                before.info_limit,
                session_index,
                info,
                taken,
                after.sessions,
            );
        },
    }
}

/// A call keeps the caches in order and their limits and the keystore as they are.
proof fn lemma_call_wf<'a>(call: Call<'a>, before: RuntimeInfoView, after: RuntimeInfoView)
    requires
        before.wf(),
        call.leads(before, after),
    ensures
        after.wf(),
        after.index_limit == before.index_limit,
        after.info_limit == before.info_limit,
        after.keystore == before.keystore,
{
    let (first, between, second) = lemma_parts(call, before, after);
    match call {
        Call::Index(block, reply, step) => {
            lemma_index_step_wf(before, block, reply, step, after);
        },
        Call::Info(parent, index, reply, step) => {
            lemma_info_step_wf(before, parent, index, reply, step, after);
        },
        Call::Session(parent, SessionEvent::Info(index, reply), _) => {
            lemma_info_step_wf(before, parent, index, Some(reply), second, after);
        },
        Call::Session(parent, event, _) => {
            let reply = match event {
                SessionEvent::Index(reply) => Some(reply),
                _ => None,
            };
            lemma_index_step_wf(before, parent, reply, first, between);
            if let Step::Done(Ok(index)) = first {
                lemma_info_step_wf(between, parent, index, None, second, after);
            }
        },
    }
}

/// Over any run of calls, the caches keep to the limits that they were made with and hold no
/// block and no session twice.
pub proof fn the_caches_keep_to_their_limits<'a>(states: Seq<RuntimeInfo>, calls: Seq<Call<'a>>)
    requires
        states.len() > 0,
        states[0]@.wf(),
        run(states, calls),
    ensures
        states.last()@.wf(),
        states.last()@.index_limit == states[0]@.index_limit,
        states.last()@.info_limit == states[0]@.info_limit,
        states.last()@.keystore == states[0]@.keystore,
    decreases calls.len(),
{
    if calls.len() > 0 {
        let n = calls.len() - 1;
        let earlier = calls.drop_last();
        let shorter = states.drop_last();
        assert forall|i: int| 0 <= i < earlier.len() implies (#[trigger] earlier[i]).made(
            shorter[i],
            shorter[i + 1],
        ) by {
            assert(calls[i].made(states[i], states[i + 1]));
        }
        the_caches_keep_to_their_limits(shorter, earlier);
        assert(calls[n].made(states[n], states[n + 1]));
        lemma_call_wf(calls[n], states[n]@, states[n + 1]@);
    }
}

/// A lookup in the cache of sessions changes no answer.
proof fn lemma_lookup_changes_no_answer<'a>(
    before: RuntimeInfoView,
    parent: BlockHash,
    session_index: SessionIndex,
    step: SessionInfoStep<'a>,
    after: RuntimeInfoView,
)
    requires
        wf(before.sessions, before.info_limit),
        info_step(before, parent, session_index, None, step, after),
    ensures
        wf(after.sessions, after.info_limit),
        forall|other: SessionIndex| #[trigger]
            lookup(after.sessions, other) == lookup(before.sessions, other),
{
    lemma_info_step_wf(before, parent, session_index, None, step, after);
    assert forall|other: SessionIndex| #[trigger]
        lookup(after.sessions, other) == lookup(before.sessions, other) by {
        touching_changes_no_answer(before.sessions, before.info_limit, session_index, other);
    }
}

/// A call that looks for cached sessions only is served from the cache and changes no answer.
proof fn lemma_call_is_served<'a>(
    call: Call<'a>,
    before: RuntimeInfoView,
    after: RuntimeInfoView,
    sessions: Seq<(SessionIndex, ExtendedSessionInfo)>,
)
    requires
        wf(before.sessions, before.info_limit),
        forall|index: SessionIndex| #[trigger]
            lookup(before.sessions, index) == lookup(sessions, index),
        call.leads(before, after),
        call.keeps_to(sessions),
    ensures
        wf(after.sessions, after.info_limit),
        forall|index: SessionIndex| #[trigger]
            lookup(after.sessions, index) == lookup(sessions, index),
        call.served_from(sessions),
{
    let (first, between, second) = lemma_parts(call, before, after);
    match call {
        Call::Index(_, _, _) => {},
        Call::Info(parent, index, _, step) => {
            assert(lookup(before.sessions, index) == lookup(sessions, index));
            lemma_lookup_changes_no_answer(before, parent, index, step, after);
        },
        Call::Session(parent, _, _) => {
            if let Step::Done(Ok(index)) = first {
                assert(lookup(between.sessions, index) == lookup(sessions, index));
                lemma_lookup_changes_no_answer(between, parent, index, second, after);
            }
        },
    }
}

/// As long as only cached sessions are queried, none is ever asked for, and each query hands
/// out what was cached from the start. No memory is needed for that.
pub proof fn cached_sessions_are_never_asked_for<'a>(
    states: Seq<RuntimeInfo>,
    calls: Seq<Call<'a>>,
)
    requires
        states.len() > 0,
        wf(states[0]@.sessions, states[0]@.info_limit),
        run(states, calls),
        forall|i: int|
            0 <= i < calls.len() ==> (#[trigger] calls[i]).keeps_to(states[0]@.sessions),
    ensures
        forall|i: int|
            0 <= i < calls.len() ==> (#[trigger] calls[i]).served_from(states[0]@.sessions),
        wf(states.last()@.sessions, states.last()@.info_limit),
        forall|index: SessionIndex| #[trigger]
            lookup(states.last()@.sessions, index) == lookup(states[0]@.sessions, index),
    decreases calls.len(),
{
    if calls.len() > 0 {
        let n = calls.len() - 1;
        let earlier = calls.drop_last();
        let shorter = states.drop_last();
        assert forall|i: int| 0 <= i < earlier.len() implies (#[trigger] earlier[i]).made(
            shorter[i],
            shorter[i + 1],
        ) && earlier[i].keeps_to(shorter[0]@.sessions) by {
            assert(calls[i].made(states[i], states[i + 1]));
        }
        cached_sessions_are_never_asked_for(shorter, earlier);
        assert(calls[n].made(states[n], states[n + 1]));
        lemma_call_is_served(calls[n], states[n]@, states[n + 1]@, states[0]@.sessions);
        assert forall|i: int| 0 <= i < calls.len() implies (#[trigger] calls[i]).served_from(
            states[0]@.sessions,
        ) by {
            if i < n {
                assert(earlier[i].served_from(states[0]@.sessions));
            }
        }
    }
}

/// A cache with room for two sessions that has fetched the last one, and after it no other
/// but the current one, and got the memory for both, never asks for either again while only
/// these two are queried, and each query hands out the info that was fetched.
pub proof fn the_current_and_the_last_session_stay<'a>(
    before: RuntimeInfo,
    last_parent: BlockHash,
    last: SessionIndex,
    last_reply: Reply<Option<SessionInfo>>,
    last_step: SessionInfoStep<'a>,
    between: RuntimeInfo,
    resumed: RuntimeInfo,
    current_parent: BlockHash,
    current: SessionIndex,
    current_reply: Reply<Option<SessionInfo>>,
    current_step: SessionInfoStep<'a>,
    states: Seq<RuntimeInfo>,
    calls: Seq<Call<'a>>,
)
    requires
        before@.wf(),
        before@.info_limit >= 2,
        last != current,
        last_reply.outcome() matches Ok(Some(_)),
        info_call(before, last_parent, last, Some(last_reply), last_step, between),
        info_has_memory(before, last, Some(last_reply)),
        resumed@.sessions == between@.sessions,
        resumed@.info_limit == between@.info_limit,
        current_reply.outcome() matches Ok(Some(_)),
        states.len() > 0,
        info_call(resumed, current_parent, current, Some(current_reply), current_step, states[0]),
        info_has_memory(resumed, current, Some(current_reply)),
        run(states, calls),
        forall|i: int|
            0 <= i < calls.len() ==> {
                &&& (#[trigger] calls[i]).session_reply() is None
                &&& match calls[i].looked_for() {
                    Some(index) => index == last || index == current,
                    None => true,
                }
            },
    ensures
        last_step matches Step::Done(Ok(Some(info))) && Some(info.session_info)
            == last_reply.outcome()->Ok_0,
        current_step matches Step::Done(Ok(Some(info))) && Some(info.session_info)
            == current_reply.outcome()->Ok_0,
        forall|i: int|
            0 <= i < calls.len() ==> match #[trigger] calls[i] {
                Call::Index(_, _, _) => true,
                Call::Info(_, index, _, step) => step == (if index == last {
                    last_step
                } else {
                    current_step
                }),
                Call::Session(_, _, step) => match step {
                    Step::Ask(message) => message.request
                        == RuntimeApiRequest::SessionIndexForChild,
                    Step::Done(Ok((index, _))) => step == with_index(
                        index,
                        if index == last {
                            last_step
                        } else {
                            current_step
                        },
                    ),
                    Step::Done(Err(_)) => true,
                },
            },
{
    lemma_info_call_grows(before, last_parent, last, Some(last_reply), last_step, between);
    lemma_info_call_grows(
        resumed,
        current_parent,
        current,
        Some(current_reply),
        current_step,
        states[0],
    );
    lemma_info_is_kept(before@, last_parent, last, Some(last_reply), last_step, between@);
    lemma_info_is_kept(
        resumed@,
        current_parent,
        current,
        Some(current_reply),
        current_step,
        states[0]@,
    );
    lemma_info_step_wf(before@, last_parent, last, Some(last_reply), last_step, between@);
    lemma_info_step_wf(
        resumed@,
        current_parent,
        current,
        Some(current_reply),
        current_step,
        states[0]@,
    );
    let (sessions, limit) = (states[0]@.sessions, states[0]@.info_limit);
    let last_info = *(last_step->Done_0->Ok_0->Some_0);
    assert(between@.sessions[0] == (last, last_info));
    if has_key(between@.sessions, current) {
        lemma_position(between@.sessions, current);
    }
    assert(sessions[1] == (last, last_info));
    lemma_lookup_at(sessions, limit, 0);
    lemma_lookup_at(sessions, limit, 1);
    assert forall|i: int| 0 <= i < calls.len() implies (#[trigger] calls[i]).keeps_to(sessions) by {
        assert(calls[i].session_reply() is None);
    }
    cached_sessions_are_never_asked_for(states, calls);
    assert forall|i: int| 0 <= i < calls.len() implies (match #[trigger] calls[i] {
        Call::Index(_, _, _) => true,
        Call::Info(_, index, _, step) => step == (if index == last {
            last_step
        } else {
            current_step
        }),
        Call::Session(_, _, step) => match step {
            Step::Ask(message) => message.request == RuntimeApiRequest::SessionIndexForChild,
            Step::Done(Ok((index, _))) => step == with_index(
                index,
                if index == last {
                    last_step
                } else {
                    current_step
                },
            ),
            Step::Done(Err(_)) => true,
        },
    }) by {
        assert(calls[i].served_from(sessions));
        assert(calls[i].session_reply() is None);
    }
}

/// A call that brings no reply for a cached session hands out what is cached of it, and leaves
/// it as it is or makes it leave.
proof fn lemma_call_repeats<'a>(
    call: Call<'a>,
    before: RuntimeInfoView,
    after: RuntimeInfoView,
    session_index: SessionIndex,
    info: ExtendedSessionInfo,
)
    requires
        wf(before.sessions, before.info_limit),
        lookup(before.sessions, session_index) == Some(info),
        call.leads(before, after),
        call.session_reply() != Some(session_index),
        has_key(after.sessions, session_index),
    ensures
        wf(after.sessions, after.info_limit),
        lookup(after.sessions, session_index) == Some(info),
        call.repeats(session_index, SessionInfoStep::<'a>::Done(Ok(Some(&info)))),
{
    let (first, between, second) = lemma_parts(call, before, after);
    match call {
        Call::Index(_, _, _) => {},
        Call::Info(parent, index, reply, step) => {
            lemma_info_step_wf(before, parent, index, reply, step, after);
            lemma_session_answer(before, parent, index, reply, step, after, session_index);
        },
        Call::Session(parent, SessionEvent::Info(index, reply), step) => {
            lemma_info_step_wf(before, parent, index, Some(reply), second, after);
            lemma_session_answer(before, parent, index, Some(reply), second, after, session_index);
        },
        Call::Session(parent, _, _) => {
            if let Step::Done(Ok(index)) = first {
                lemma_info_step_wf(between, parent, index, None, second, after);
                lemma_session_answer(between, parent, index, None, second, after, session_index);
            }
        },
    }
}

/// What a query handed out for a session is what every later query for it hands out, without
/// a request and whatever the block, over any run of calls in which the session does not
/// leave the cache and no other reply for it comes in.
pub proof fn a_session_keeps_its_info<'a>(
    before: RuntimeInfo,
    parent: BlockHash,
    session_index: SessionIndex,
    reply: Option<Reply<Option<SessionInfo>>>,
    first: SessionInfoStep<'a>,
    states: Seq<RuntimeInfo>,
    calls: Seq<Call<'a>>,
)
    requires
        before@.wf(),
        first matches Step::Done(Ok(Some(_))),
        states.len() > 0,
        info_call(before, parent, session_index, reply, first, states[0]),
        run(states, calls),
        forall|i: int|
            0 <= i < states.len() ==> has_key((#[trigger] states[i])@.sessions, session_index),
        forall|i: int|
            0 <= i < calls.len() ==> (#[trigger] calls[i]).session_reply() != Some(session_index),
    ensures
        forall|i: int|
            0 <= i < calls.len() ==> (#[trigger] calls[i]).repeats(session_index, first),
        first == SessionInfoStep::<'a>::Done(
            Ok(Some(&lookup(states.last()@.sessions, session_index)->0)),
        ),
        wf(states.last()@.sessions, states.last()@.info_limit),
    decreases calls.len(),
{
    if calls.len() == 0 {
        lemma_info_step_wf(before@, parent, session_index, reply, first, states[0]@);
        match reply {
            None => lemma_touched(before@.sessions, session_index),
            Some(_) => {
                let (info, taken) = choose|info: ExtendedSessionInfo, taken: bool|
                    {
                        &&& #[trigger] put(
                            before@.sessions,
                            before@.info_limit,
                            session_index,
                            info,
                            taken,
                            states[0]@.sessions,
                        )
                        &&& first == Step::Done(
                            Ok::<Option<&'a ExtendedSessionInfo>, Error>(
                                if taken {
                                    Some(&info)
                                } else {
                                    None
                                },
                            ),
                        )
                    };
                lemma_put(
                    before@.sessions,
                    before@.info_limit,
                    session_index,
                    info,
                    taken,
                    states[0]@.sessions,
                );
            },
        }
    } else {
        let n = calls.len() - 1;
        let earlier = calls.drop_last();
        let shorter = states.drop_last();
        assert forall|i: int| 0 <= i < earlier.len() implies (#[trigger] earlier[i]).made(
            shorter[i],
            shorter[i + 1],
        ) && earlier[i].session_reply() != Some(session_index) by {
            assert(calls[i].made(states[i], states[i + 1]));
        }
        assert forall|i: int| 0 <= i < shorter.len() implies has_key(
            (#[trigger] shorter[i])@.sessions,
            session_index,
        ) by {
            assert(has_key(states[i]@.sessions, session_index));
        }
        a_session_keeps_its_info(before, parent, session_index, reply, first, shorter, earlier);
        assert(calls[n].made(states[n], states[n + 1]));
        assert(has_key(states[n]@.sessions, session_index));
        assert(has_key(states[n + 1]@.sessions, session_index));
        lemma_call_repeats(
            calls[n],
            states[n]@,
            states[n + 1]@,
            session_index,
            lookup(states[n]@.sessions, session_index)->0,
        );
        assert forall|i: int| 0 <= i < calls.len() implies (#[trigger] calls[i]).repeats(
            session_index,
            first,
        ) by {
            if i < n {
                assert(earlier[i].repeats(session_index, first));
            }
        }
    }
}

/// A call that brings no reply for a block whose session index is cached finds that one, and
/// leaves it as it is or makes it leave.
proof fn lemma_call_repeats_index<'a>(
    call: Call<'a>,
    before: RuntimeInfoView,
    after: RuntimeInfoView,
    parent: BlockHash,
    index: SessionIndex,
)
    requires
        wf(before.indices, before.index_limit),
        lookup(before.indices, parent@) == Some(index),
        call.leads(before, after),
        call.index_reply() != Some(parent@),
        has_key(after.indices, parent@),
    ensures
        wf(after.indices, after.index_limit),
        lookup(after.indices, parent@) == Some(index),
        call.repeats_index(parent, index),
{
    let (first, between, second) = lemma_parts(call, before, after);
    match call {
        Call::Index(block, reply, step) => {
            lemma_index_step_wf(before, block, reply, step, after);
            lemma_index_answer(before, block, reply, step, after, parent);
        },
        Call::Info(_, _, _, _) => {},
        Call::Session(_, SessionEvent::Info(_, _), _) => {},
        Call::Session(block, event, step) => {
            let reply = match event {
                SessionEvent::Index(reply) => Some(reply),
                _ => None,
            };
            assert(between.indices == after.indices);
            lemma_index_step_wf(before, block, reply, first, between);
            lemma_index_answer(before, block, reply, first, between, parent);
        },
    }
}

/// The session index that a query found for a block is what every later query for the block
/// finds, without a request, over any run of calls in which the block does not leave the
/// cache and no other reply for it comes in.
pub proof fn a_block_keeps_its_session_index<'a>(
    before: RuntimeInfo,
    parent: BlockHash,
    reply: Option<Reply<SessionIndex>>,
    index: SessionIndex,
    states: Seq<RuntimeInfo>,
    calls: Seq<Call<'a>>,
)
    requires
        before@.wf(),
        states.len() > 0,
        index_call(before, parent, reply, Step::Done(Ok(index)), states[0]),
        run(states, calls),
        forall|i: int|
            0 <= i < states.len() ==> has_key((#[trigger] states[i])@.indices, parent@),
        forall|i: int|
            0 <= i < calls.len() ==> (#[trigger] calls[i]).index_reply() != Some(parent@),
    ensures
        forall|i: int|
            0 <= i < calls.len() ==> (#[trigger] calls[i]).repeats_index(parent, index),
        lookup(states.last()@.indices, parent@) == Some(index),
        wf(states.last()@.indices, states.last()@.index_limit),
    decreases calls.len(),
{
    if calls.len() == 0 {
        let (indices, limit) = (before@.indices, before@.index_limit);
        assert(has_key(states[0]@.indices, parent@));
        match reply {
            None => {
                lemma_touched(indices, parent@);
                lemma_touched_wf(indices, limit, parent@);
            },
            Some(_) => {
                let taken = choose|taken: bool| #[trigger]
                    put(indices, limit, parent@, index, taken, states[0]@.indices);
                lemma_put(indices, limit, parent@, index, taken, states[0]@.indices);
                lemma_put_wf(indices, limit, parent@, index, taken, states[0]@.indices);
            },
        }
    } else {
        let n = calls.len() - 1;
        let earlier = calls.drop_last();
        let shorter = states.drop_last();
        assert forall|i: int| 0 <= i < earlier.len() implies (#[trigger] earlier[i]).made(
            shorter[i],
            shorter[i + 1],
        ) && earlier[i].index_reply() != Some(parent@) by {
            assert(calls[i].made(states[i], states[i + 1]));
        }
        assert forall|i: int| 0 <= i < shorter.len() implies has_key(
            (#[trigger] shorter[i])@.indices,
            parent@,
        ) by {
            assert(has_key(states[i]@.indices, parent@));
        }
        a_block_keeps_its_session_index(before, parent, reply, index, shorter, earlier);
        assert(calls[n].made(states[n], states[n + 1]));
        assert(has_key(states[n + 1]@.indices, parent@));
        lemma_call_repeats_index(calls[n], states[n]@, states[n + 1]@, parent, index);
        assert forall|i: int| 0 <= i < calls.len() implies (#[trigger] calls[i]).repeats_index(
            parent,
            index,
        ) by {
            if i < n {
                assert(earlier[i].repeats_index(parent, index));
            }
        }
    }
}

/// A session index that was learnt, and that the cache got the memory for, stays cached where
/// the query then fails for want of the session's info: the next query for the block asks for
/// the info alone.
pub proof fn an_index_outlives_a_failed_query<'a>(
    before: RuntimeInfo,
    parent: BlockHash,
    index_reply: Reply<SessionIndex>,
    asked: SessionStep<'a>,
    between: RuntimeInfo,
    info_reply: Reply<Option<SessionInfo>>,
    failed: SessionStep<'a>,
    after: RuntimeInfo,
    again: SessionStep<'a>,
    end: RuntimeInfo,
)
    requires
        before@.index_limit > 0,
        index_reply.outcome() is Ok,
        session_call(before, parent, SessionEvent::Index(index_reply), asked, between),
        session_has_memory(before, parent, SessionEvent::Index(index_reply)),
        asked is Ask,
        !(info_reply.outcome() matches Ok(Some(_))),
        session_call(
            between,
            parent,
            SessionEvent::Info(index_reply.outcome()->Ok_0, info_reply),
            failed,
            after,
        ),
        session_call(after, parent, SessionEvent::Start, again, end),
    ensures
        failed == SessionStep::<'a>::Done(
            Err(
                match info_reply.outcome() {
                    Ok(_) => Error::NoSuchSession(index_reply.outcome()->Ok_0),
                    Err(error) => error,
                },
            ),
        ),
        lookup(after@.indices, parent@) == Some(index_reply.outcome()->Ok_0),
        again == asked,
        asked == SessionStep::<'a>::Ask(
            RuntimeApiMessage {
                relay_parent: parent,
                request: RuntimeApiRequest::SessionInfo(index_reply.outcome()->Ok_0),
            },
        ),
{
    lemma_session_call_grows(
        before,
        parent,
        SessionEvent::Index(index_reply),
        asked,
        between,
    );
    let (held, limit) = (before@.indices, before@.index_limit);
    let index = index_reply.outcome()->Ok_0;
    let (first, known) = choose|first: Step<Result<SessionIndex, Error>>, known: RuntimeInfoView|
     #[trigger]
        index_step(before@, parent, Some(index_reply), first, known) && goes_on(
            first,
            known,
            parent,
            asked,
            between@,
        );
    let taken = choose|taken: bool| #[trigger]
        put(held, limit, parent@, index, taken, known.indices);
    lemma_put(held, limit, parent@, index, taken, known.indices);
    lemma_stored(held, limit, parent@, index, taken, known.indices);
}

/// A failed query for a session stands in no one's way: it leaves everything as it was, the
/// next query asks again, and a good reply to that is handed out and cached, where the cache
/// gets the memory for it.
pub proof fn a_failed_query_can_be_made_good<'a>(
    before: RuntimeInfo,
    parent: BlockHash,
    session_index: SessionIndex,
    bad: Reply<Option<SessionInfo>>,
    failed: SessionInfoStep<'a>,
    between: RuntimeInfo,
    other_parent: BlockHash,
    asked: SessionInfoStep<'a>,
    waiting: RuntimeInfo,
    good: Reply<Option<SessionInfo>>,
    fetched: SessionInfoStep<'a>,
    after: RuntimeInfo,
)
    requires
        before@.info_limit > 0,
        !has_key(before@.sessions, session_index),
        !(bad.outcome() matches Ok(Some(_))),
        info_call(before, parent, session_index, Some(bad), failed, between),
        info_call(between, other_parent, session_index, None, asked, waiting),
        good.outcome() matches Ok(Some(_)),
        info_call(waiting, other_parent, session_index, Some(good), fetched, after),
        info_has_memory(waiting, session_index, Some(good)),
    ensures
        failed matches Step::Done(Err(_)),
        asked == SessionInfoStep::<'a>::Ask(
            RuntimeApiMessage {
                relay_parent: other_parent,
                request: RuntimeApiRequest::SessionInfo(session_index),
            },
        ),
        waiting@ == before@,
        fetched matches Step::Done(Ok(Some(info))) && {
            &&& Some(info.session_info) == good.outcome()->Ok_0
            &&& lookup(after@.sessions, session_index) == Some(*info)
        },
{
    assert(waiting@ =~= before@);
    lemma_info_call_grows(waiting, other_parent, session_index, Some(good), fetched, after);
    lemma_info_is_kept(waiting@, other_parent, session_index, Some(good), fetched, after@);
    let info = *(fetched->Done_0->Ok_0->Some_0);
    assert(first_at(after@.sessions, session_index, 0));
    lemma_position_unique(after@.sessions, session_index, 0);
    assert(after@.sessions[0] == (session_index, info));
}

/// A signature is checked for the session that the query for the block ends in, and only
/// what that session's validator signed for that session and block is marked as checked.
pub proof fn only_good_signatures_pass<'a, Payload>(
    session: SessionStep<'a>,
    parent: BlockHash,
    signed: UncheckedSigned<Payload>,
    checked: SignatureStep<Payload>,
)
    requires
        signature_step(session, parent, signed, checked),
    ensures
        checked matches SignatureStep::Done(Ok(Some(Ok(passed)))) ==> {
            &&& passed@ == signed
            &&& session matches Step::Done(Ok((index, Some(info))))
            &&& signed.validator_index.0 < info.session_info.validators@.len()
            &&& well_signed(index, info.session_info, parent@, signed)
        },
        checked matches SignatureStep::Done(Ok(Some(Err(refused)))) ==> refused == signed,
{
}

/// A signature is checked against the session info that was just fetched, where the cache gets
/// the memory for that: a good one passes, and what has a bad one is handed back as it came.
pub proof fn a_fetched_session_settles_the_signature<'a, Payload>(
    before: RuntimeInfo,
    parent: BlockHash,
    index: SessionIndex,
    reply: Reply<Option<SessionInfo>>,
    session: SessionStep<'a>,
    after: RuntimeInfo,
    signed: UncheckedSigned<Payload>,
    checked: SignatureStep<Payload>,
)
    requires
        before@.info_limit > 0,
        reply.outcome() matches Ok(Some(_)),
        session_call(before, parent, SessionEvent::Info(index, reply), session, after),
        session_has_memory(before, parent, SessionEvent::Info(index, reply)),
        signature_step(session, parent, signed, checked),
    ensures
        checked matches SignatureStep::Done(Ok(Some(result))) && match result {
            Ok(passed) => {
                &&& passed@ == signed
                &&& well_signed(index, reply.outcome()->Ok_0->Some_0, parent@, signed)
            },
            Err(refused) => {
                &&& refused == signed
                &&& !well_signed(index, reply.outcome()->Ok_0->Some_0, parent@, signed)
            },
        },
{
    let second = choose|second: SessionInfoStep<'a>| #[trigger]
        info_call(before, parent, index, Some(reply), second, after) && session == with_index(
            index,
            second,
        );
    lemma_info_call_grows(before, parent, index, Some(reply), second, after);
    lemma_info_is_kept(before@, parent, index, Some(reply), second, after@);
}

/// The check of a signature fails exactly where the query for the session does, and with the
/// same error. A bad signature is no failure.
pub proof fn only_a_failed_query_fails_the_check<'a, Payload>(
    session: SessionStep<'a>,
    parent: BlockHash,
    signed: UncheckedSigned<Payload>,
    checked: SignatureStep<Payload>,
    error: Error,
)
    requires
        signature_step(session, parent, signed, checked),
    ensures
        checked == SignatureStep::<Payload>::Done(Err(error)) <==> session
            == SessionStep::<'a>::Done(Err(error)),
{
}

/// Whose keys we hold has no say in whether a signature is good: whoever is given the same
/// session info, and gets the memory to cache it, comes to the same verdict, with any keystore
/// or none.
pub proof fn our_keys_change_no_verdict<'a, Payload>(
    ours: RuntimeInfo,
    theirs: RuntimeInfo,
    parent: BlockHash,
    index: SessionIndex,
    reply: Reply<Option<SessionInfo>>,
    our_session: SessionStep<'a>,
    ours_after: RuntimeInfo,
    their_session: SessionStep<'a>,
    theirs_after: RuntimeInfo,
    signed: UncheckedSigned<Payload>,
    our_verdict: SignatureStep<Payload>,
    their_verdict: SignatureStep<Payload>,
)
    requires
        ours@.info_limit > 0,
        theirs@.info_limit > 0,
        reply.outcome() matches Ok(Some(_)),
        session_call(ours, parent, SessionEvent::Info(index, reply), our_session, ours_after),
        session_has_memory(ours, parent, SessionEvent::Info(index, reply)),
        session_call(theirs, parent, SessionEvent::Info(index, reply), their_session, theirs_after),
        session_has_memory(theirs, parent, SessionEvent::Info(index, reply)),
        signature_step(our_session, parent, signed, our_verdict),
        signature_step(their_session, parent, signed, their_verdict),
    ensures
        match (our_verdict, their_verdict) {
            (
                SignatureStep::Done(Ok(Some(Ok(our_passed)))),
                SignatureStep::Done(Ok(Some(Ok(their_passed)))),
            ) => our_passed@ == signed && their_passed@ == signed,
            (
                SignatureStep::Done(Ok(Some(Err(we_refused)))),
                SignatureStep::Done(Ok(Some(Err(they_refused)))),
            ) => we_refused == signed && they_refused == signed,
            _ => false,
        },
{
    a_fetched_session_settles_the_signature(
        ours,
        parent,
        index,
        reply,
        our_session,
        ours_after,
        signed,
        our_verdict,
    );
    a_fetched_session_settles_the_signature(
        theirs,
        parent,
        index,
        reply,
        their_session,
        theirs_after,
        signed,
        their_verdict,
    );
}

/// The four bytes of a number tell the number.
proof fn lemma_little_endian(n: u32, m: u32)
    requires
        little_endian(n) == little_endian(m),
    ensures
        n == m,
{
    let (a, b) = (little_endian(n), little_endian(m));
    assert(a[0] == (n % 256) as u8 && b[0] == (m % 256) as u8);
    assert(a[1] == (n / 256 % 256) as u8 && b[1] == (m / 256 % 256) as u8);
    assert(a[2] == (n / 65536 % 256) as u8 && b[2] == (m / 65536 % 256) as u8);
    assert(a[3] == (n / 16777216 % 256) as u8 && b[3] == (m / 16777216 % 256) as u8);
    assert(n % 256 == m % 256);
    assert(n / 256 % 256 == m / 256 % 256);
    assert(n / 65536 % 256 == m / 65536 % 256);
    assert(n / 16777216 % 256 == m / 16777216 % 256);
    assert(n == m) by (bit_vector)
        requires
            n % 256u32 == m % 256u32,
            (n / 256u32) % 256u32 == (m / 256u32) % 256u32,
            (n / 65536u32) % 256u32 == (m / 65536u32) % 256u32,
            (n / 16777216u32) % 256u32 == (m / 16777216u32) % 256u32,
    ;
}

/// A signature is bound to its session and block: no two contexts give the same signed data
/// for one payload.
pub proof fn signed_data_tells_the_context(
    encoded: Seq<u8>,
    session_index: SessionIndex,
    parent_hash: Seq<u8>,
    other_index: SessionIndex,
    other_hash: Seq<u8>,
)
    requires
        signing_data(encoded, session_index, parent_hash) == signing_data(
            encoded,
            other_index,
            other_hash,
        ),
    ensures
        session_index == other_index,
        parent_hash == other_hash,
{
    let data = signing_data(encoded, session_index, parent_hash);
    let other = signing_data(encoded, other_index, other_hash);
    let n = encoded.len() as int;
    assert(little_endian(session_index) =~= data.subrange(n, n + 4));
    assert(little_endian(other_index) =~= other.subrange(n, n + 4));
    lemma_little_endian(session_index, other_index);
    assert(parent_hash =~= data.skip(n + 4));
    assert(other_hash =~= other.skip(n + 4));
}

/// Without a keystore we are nobody.
pub proof fn without_a_keystore_we_are_nobody(
    session_info: SessionInfo,
    info: ValidatorInfo,
)
    requires
        describes(None, session_info, info),
    ensures
        info.our_index is None,
        info.our_group is None,
{
}

/// Our index is that of a validator whose key the keystore confirmed, as long as indices fit
/// into 32 bits.
pub proof fn our_index_is_ours(
    keystore: Keystore,
    session_info: SessionInfo,
    info: ValidatorInfo,
    index: ValidatorIndex,
)
    requires
        describes(Some(keystore), session_info, info),
        info.our_index == Some(index),
        session_info.validators@.len() <= u32::MAX + 1,
    ensures
        index.0 < session_info.validators@.len(),
        keystore.answers(session_info.validators@[index.0 as int], true),
{
}

/// Our group is one that we are in, and the first such, as long as indices fit into 32 bits.
pub proof fn our_group_has_us(
    keystore: Option<Keystore>,
    session_info: SessionInfo,
    info: ValidatorInfo,
    group: GroupIndex,
)
    requires
        describes(keystore, session_info, info),
        info.our_group == Some(group),
        session_info.validator_groups@.len() <= u32::MAX + 1,
    ensures
        info.our_index matches Some(index) && first_group(
            session_info.validator_groups@,
            index,
            group.0 as int,
        ),
{
}

/// The occupants of two rows of cores are those of the one, then those of the other.
pub proof fn occupants_keep_the_order_of_the_cores<OccupiedCore, ScheduledCore>(
    front: Seq<CoreState<OccupiedCore, ScheduledCore>>,
    back: Seq<CoreState<OccupiedCore, ScheduledCore>>,
)
    ensures
        occupied(front + back) == occupied(front) + occupied(back),
{
    let is_occupied = |core: CoreState<OccupiedCore, ScheduledCore>| core is Occupied;
    Seq::filter_distributes_over_add(front, back, is_occupied);
    assert(occupied(front + back) =~= occupied(front) + occupied(back));
}

/// Every occupied core has its occupant reported, and every reported occupant has a core.
pub proof fn occupants_are_those_of_the_cores<OccupiedCore, ScheduledCore>(
    cores: Seq<CoreState<OccupiedCore, ScheduledCore>>,
    occupant: OccupiedCore,
)
    ensures
        occupied(cores).contains(occupant) <==> cores.contains(CoreState::Occupied(occupant)),
{
    let is_occupied = |core: CoreState<OccupiedCore, ScheduledCore>| core is Occupied;
    let core = CoreState::<OccupiedCore, ScheduledCore>::Occupied(occupant);
    if occupied(cores).contains(occupant) {
        let i = choose|i: int|
            0 <= i < occupied(cores).len() && #[trigger] occupied(cores)[i] == occupant;
        assert(cores.filter(is_occupied)[i] == core);
        cores.lemma_filter_contains_rev(is_occupied, core);
    }
    if cores.contains(core) {
        let i = choose|i: int| 0 <= i < cores.len() && #[trigger] cores[i] == core;
        cores.lemma_filter_contains(is_occupied, i);
        let j = choose|j: int|
            0 <= j < cores.filter(is_occupied).len() && #[trigger] cores.filter(is_occupied)[j]
                == core;
        assert(occupied(cores)[j] == occupant);
    }
}

/// Prospective parachains are enabled exactly where the runtime has the parameters, disabled
/// exactly where it does not know of them, and any other failure stays one.
pub proof fn the_mode_follows_the_runtime(outcome: Result<AsyncBackingParams, Error>)
    ensures
        mode_for(outcome) matches Ok(ProspectiveParachainsMode::Enabled { .. }) <==> outcome is Ok,
        mode_for(outcome) == Ok::<ProspectiveParachainsMode, Error>(
            ProspectiveParachainsMode::Disabled,
        ) <==> not_supported(outcome),
        mode_for(outcome) matches Err(error) ==> outcome == Err::<AsyncBackingParams, Error>(error),
{
}

/// A runtime without a say in the number of backing votes is never a failure.
pub proof fn the_vote_count_needs_no_support(outcome: Result<u32, Error>)
    ensures
        votes_for(outcome) is Err <==> outcome is Err && !not_supported(outcome),
        outcome is Ok ==> votes_for(outcome) == outcome,
{
}

} // verus!
