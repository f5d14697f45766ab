use crate::index::is_next_deadline;
use vstd::prelude::*;

verus! {

/// What an entry holds: its value and its deadline, if it has one.
pub ghost struct EntryView {
    pub data: Seq<u8>,
    pub expires_at: Option<u64>,
}

/// What a store holds: its entries by key, the `(deadline, key)` pairs of
/// its expiration index, the topics that have a channel, and whether it was
/// shut down.
pub ghost struct StoreModel {
    pub entries: Map<Seq<char>, EntryView>,
    pub expirations: Set<(u64, Seq<char>)>,
    pub topics: Set<Seq<char>>,
    pub shutdown: bool,
}

/// A deadline has passed once the clock has reached it.
pub open spec fn expired(expires_at: Option<u64>, now: u64) -> bool {
    match expires_at {
        Some(t) => t <= now,
        None => false,
    }
}

/// The deadline that a time-to-live gives at `now`; past the clock's range it
/// stays at the largest instant.
pub open spec fn deadline(now: u64, ttl: Option<u64>) -> Option<u64> {
    match ttl {
        Some(d) => Some(if now + d > u64::MAX { u64::MAX } else { (now + d) as u64 }),
        None => None,
    }
}

/// The pairs that an expiration index must hold for `entries`: `(t, k)`
/// exactly when the entry of `k` has deadline `t`.
pub open spec fn index_of(entries: Map<Seq<char>, EntryView>) -> Set<(u64, Seq<char>)> {
    Set::new(|p: (u64, Seq<char>)| entries.contains_key(p.1) && entries[p.1].expires_at == Some(p.0))
}

/// The expiration index agrees with the entries.
pub open spec fn consistent(v: StoreModel) -> bool {
    v.expirations == index_of(v.entries)
}

/// What a read of `key` at `now` finds: the value of a live entry; an entry
/// whose deadline has passed reads as absent even before it is swept, and a
/// store that was shut down finds nothing.
pub open spec fn lookup(v: StoreModel, key: Seq<char>, now: u64) -> Option<Seq<u8>> {
    if !v.shutdown && v.entries.contains_key(key) && !expired(v.entries[key].expires_at, now) {
        Some(v.entries[key].data)
    } else {
        None
    }
}

/// Whether setting a key with deadline `expires_at` must wake the sweeper:
/// the store is running and the new deadline comes before every deadline it
/// knows of.
pub open spec fn wakes(v: StoreModel, expires_at: Option<u64>) -> bool {
    !v.shutdown && match expires_at {
        Some(t) => forall|p: (u64, Seq<char>)| #[trigger] v.expirations.contains(p) ==> t < p.0,
        None => false,
    }
}

/// `v` with its entries replaced by `entries`, and the index made to match.
pub open spec fn with_entries(v: StoreModel, entries: Map<Seq<char>, EntryView>) -> StoreModel {
    StoreModel { entries, expirations: index_of(entries), topics: v.topics, shutdown: v.shutdown }
}

/// The store after `key` is set to `data` with deadline `expires_at`; a store
/// that was shut down ignores the write.
pub open spec fn after_set(v: StoreModel, key: Seq<char>, data: Seq<u8>, expires_at: Option<u64>) -> StoreModel {
    if v.shutdown {
        v
    } else {
        with_entries(v, v.entries.insert(key, EntryView { data, expires_at }))
    }
}

/// The store after `key` is deleted; a store that was shut down ignores the
/// delete.
pub open spec fn after_delete(v: StoreModel, key: Seq<char>) -> StoreModel {
    if v.shutdown {
        v
    } else {
        with_entries(v, v.entries.remove(key))
    }
}

/// The entries of `v` whose deadline has not passed at `now`.
pub open spec fn live_entries(v: StoreModel, now: u64) -> Map<Seq<char>, EntryView> {
    Map::new(
        |k: Seq<char>| v.entries.contains_key(k) && !expired(v.entries[k].expires_at, now),
        |k: Seq<char>| v.entries[k],
    )
}

/// The store after a sweep at `now`: a store that was shut down is left as
/// it is; otherwise every entry whose deadline has passed is gone.
pub open spec fn after_sweep(v: StoreModel, now: u64) -> StoreModel {
    if v.shutdown {
        v
    } else {
        with_entries(v, live_entries(v, now))
    }
}

/// The store after it is shut down.
pub open spec fn after_shutdown(v: StoreModel) -> StoreModel {
    StoreModel { shutdown: true, ..v }
}

/// The store after `topic` is given a channel, if it had none.
pub open spec fn after_register(v: StoreModel, topic: Seq<char>) -> StoreModel {
    StoreModel { topics: v.topics.insert(topic), ..v }
}

/// `r` is the next deadline of `v`: none when nothing is due to expire.
pub open spec fn is_next(v: StoreModel, r: Option<u64>) -> bool {
    is_next_deadline(v.expirations, r)
}

} // verus!
