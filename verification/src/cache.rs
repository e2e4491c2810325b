//! The two caches, each a least-recently-used map of the `schnellru` crate.

use vstd::prelude::*;

use crate::lru::{as_long_as_allowed, lookup, put, touched};
use crate::types::{BlockHash, SessionIndex};
use crate::validator::ExtendedSessionInfo;

verus! {

/// Holds a `schnellru::LruMap` from a block to the session index expected at its children.
#[verifier::external_body]
pub struct SessionIndexCache {
    inner: schnellru::LruMap<BlockHash, SessionIndex>,
}

/// Holds a `schnellru::LruMap` from a session index to what is known of that session.
#[verifier::external_body]
pub struct SessionInfoCache {
    inner: schnellru::LruMap<SessionIndex, ExtendedSessionInfo>,
}

/// What the map holds, the most recently used first.
pub uninterp spec fn index_entries(cache: SessionIndexCache) -> Seq<(Seq<u8>, SessionIndex)>;

/// The length limit that the map was made with.
pub uninterp spec fn index_limit(cache: SessionIndexCache) -> nat;

/// What the map holds, the most recently used first.
pub uninterp spec fn info_entries(cache: SessionInfoCache) -> Seq<
    (SessionIndex, ExtendedSessionInfo),
>;

/// The length limit that the map was made with.
pub uninterp spec fn info_limit(cache: SessionInfoCache) -> nat;

impl SessionIndexCache {
    /// Calls `schnellru::LruMap::new` with a `schnellru::ByLength`: an empty map that keeps to
    /// the limit.
    #[verifier::external_body]
    pub(crate) fn new(limit: u32) -> (cache: Self)
        ensures
            index_entries(cache) == Seq::<(Seq<u8>, SessionIndex)>::empty(),
            index_limit(cache) == limit,
    {
        SessionIndexCache { inner: schnellru::LruMap::new(schnellru::ByLength::new(limit)) }
    }

    /// Calls `schnellru::LruMap::get`: the value under the key, whose entry becomes the most
    /// recently used.
    #[verifier::external_body]
    pub(crate) fn get(&mut self, key: &BlockHash) -> (found: Option<SessionIndex>)
        ensures
            found == lookup(index_entries(*old(self)), key@),
            index_entries(*final(self)) == touched(index_entries(*old(self)), key@),
            index_limit(*final(self)) == index_limit(*old(self)),
    {
        self.inner.get(key).copied()
    }

    /// Calls `schnellru::LruMap::insert`, which says whether the map took the entry. Left open
    /// is how many entries a map that gets no memory to grow gives up, and whether it takes
    /// the new one: that rests on the machine.
    #[verifier::external_body]
    pub(crate) fn insert(self, key: BlockHash, value: SessionIndex) -> (done: (Self, bool))
        ensures
            put(
                index_entries(self),
                index_limit(self),
                key@,
                value,
                done.1,
                index_entries(done.0),
            ),
            index_limit(done.0) == index_limit(self),
    {
        let mut cache = self;
        let taken = cache.inner.insert(key, value);
        (cache, taken)
    }

    /// Whether the map can become `after` when an entry is inserted, where `taken` says
    /// whether it took the entry.
    pub closed spec fn inserts(
        self,
        key: BlockHash,
        value: SessionIndex,
        taken: bool,
        after: Self,
    ) -> bool {
        call_ensures(SessionIndexCache::insert, (self, key, value), (after, taken))
    }

    /// What an insertion is: a call that inserts.
    pub(crate) proof fn lemma_inserts(
        self,
        key: BlockHash,
        value: SessionIndex,
        taken: bool,
        after: Self,
    )
        ensures
            self.inserts(key, value, taken, after) == call_ensures(
                SessionIndexCache::insert,
                (self, key, value),
                (after, taken),
            ),
    {
    }

    /// Whether the map gets the memory for an entry under a key: however the insertion goes,
    /// the map ends as long as its limit lets it.
    pub open spec fn has_memory_for(self, key: BlockHash) -> bool {
        forall|value: SessionIndex, taken: bool, after: Self| #[trigger]
            self.inserts(key, value, taken, after) ==> as_long_as_allowed(
                index_entries(self),
                index_limit(self),
                key@,
                index_entries(after),
            )
    }

    /// Puts an entry into the map, and says whether the map took it.
    pub(crate) fn store(&mut self, key: BlockHash, value: SessionIndex) -> (taken: bool)
        ensures
            old(self).inserts(key, value, taken, *final(self)),
            put(
                index_entries(*old(self)),
                index_limit(*old(self)),
                key@,
                value,
                taken,
                index_entries(*final(self)),
            ),
            index_limit(*final(self)) == index_limit(*old(self)),
    {
        let mut map = SessionIndexCache::new(0);
        std::mem::swap(&mut map, self);
        let (map, taken) = map.insert(key, value);
        *self = map;
        taken
    }
}

impl SessionInfoCache {
    /// Calls `schnellru::LruMap::new` with a `schnellru::ByLength`: an empty map that keeps to
    /// the limit.
    #[verifier::external_body]
    pub(crate) fn new(limit: u32) -> (cache: Self)
        ensures
            info_entries(cache) == Seq::<(SessionIndex, ExtendedSessionInfo)>::empty(),
            info_limit(cache) == limit,
    {
        SessionInfoCache { inner: schnellru::LruMap::new(schnellru::ByLength::new(limit)) }
    }

    /// Calls `schnellru::LruMap::get`: the value under the key, whose entry becomes the most
    /// recently used.
    #[verifier::external_body]
    pub(crate) fn get(&mut self, key: SessionIndex) -> (found: Option<&ExtendedSessionInfo>)
        ensures
            match found {
                Some(info) => lookup(info_entries(*old(self)), key) == Some(*info),
                None => lookup(info_entries(*old(self)), key) is None,
            },
            info_entries(*final(self)) == touched(info_entries(*old(self)), key),
            info_limit(*final(self)) == info_limit(*old(self)),
    {
        self.inner.get(&key).map(|info| &*info)
    }

    /// Calls `schnellru::LruMap::insert`, which says whether the map took the entry. Left open
    /// is how many entries a map that gets no memory to grow gives up, and whether it takes
    /// the new one: that rests on the machine.
    #[verifier::external_body]
    pub(crate) fn insert(self, key: SessionIndex, value: ExtendedSessionInfo) -> (done: (
        Self,
        bool,
    ))
        ensures
            put(
                info_entries(self),
                info_limit(self),
                key,
                value,
                done.1,
                info_entries(done.0),
            ),
            info_limit(done.0) == info_limit(self),
    {
        let mut cache = self;
        let taken = cache.inner.insert(key, value);
        (cache, taken)
    }

    /// Whether the map can become `after` when an entry is inserted, where `taken` says
    /// whether it took the entry.
    pub closed spec fn inserts(
        self,
        key: SessionIndex,
        value: ExtendedSessionInfo,
        taken: bool,
        after: Self,
    ) -> bool {
        call_ensures(SessionInfoCache::insert, (self, key, value), (after, taken))
    }

    /// What an insertion is: a call that inserts.
    pub(crate) proof fn lemma_inserts(
        self,
        key: SessionIndex,
        value: ExtendedSessionInfo,
        taken: bool,
        after: Self,
    )
        ensures
            self.inserts(key, value, taken, after) == call_ensures(
                SessionInfoCache::insert,
                (self, key, value),
                (after, taken),
            ),
    {
    }

    /// Whether the map gets the memory for an entry under a key: however the insertion goes,
    /// the map ends as long as its limit lets it.
    pub open spec fn has_memory_for(self, key: SessionIndex) -> bool {
        forall|value: ExtendedSessionInfo, taken: bool, after: Self| #[trigger]
            self.inserts(key, value, taken, after) ==> as_long_as_allowed(
                info_entries(self),
                info_limit(self),
                key,
                info_entries(after),
            )
    }

    /// Puts an entry into the map, and says whether the map took it.
    pub(crate) fn store(&mut self, key: SessionIndex, value: ExtendedSessionInfo) -> (taken: bool)
        ensures
            old(self).inserts(key, value, taken, *final(self)),
            put(
                info_entries(*old(self)),
                info_limit(*old(self)),
                key,
                value,
                taken,
                info_entries(*final(self)),
            ),
            info_limit(*final(self)) == info_limit(*old(self)),
    {
        let mut map = SessionInfoCache::new(0);
        std::mem::swap(&mut map, self);
        let (map, taken) = map.insert(key, value);
        *self = map;
        taken
    }
}

} // verus!
