use crate::model::{
    after_delete, after_set, after_shutdown, after_sweep, consistent, expired, is_next, lookup,
    wakes, StoreModel,
};
use vstd::prelude::*;

verus! {

/// Deleting an absent key changes nothing, so deleting it twice is the same
/// as deleting it once.
pub proof fn lemma_delete_absent_twice(v: StoreModel, key: Seq<char>)
    requires
        consistent(v),
        !v.entries.contains_key(key),
    ensures
        after_delete(v, key) == v,
        after_delete(after_delete(v, key), key) == after_delete(v, key),
{
    assert(v.entries.remove(key) =~= v.entries);
}

/// In a running store, setting a key with one deadline and at once again
/// with an earlier one leaves exactly one pair for the key, with the second
/// deadline.
pub proof fn lemma_reset_keeps_one_pair(
    v: StoreModel,
    key: Seq<char>,
    d1: Seq<u8>,
    t1: u64,
    d2: Seq<u8>,
    t2: u64,
)
    requires
        !v.shutdown,
        t2 < t1,
    ensures
        ({
            let w = after_set(after_set(v, key, d1, Some(t1)), key, d2, Some(t2));
            &&& w.expirations.contains((t2, key))
            &&& forall|t: u64| #[trigger] w.expirations.contains((t, key)) ==> t == t2
        }),
{
}

/// With deadlines `d1 < d2 < d3`, a sweep at a time that has reached `d2`
/// but not `d3` removes the first two entries and keeps the third readable;
/// no sweep removes an entry whose deadline has not passed.
pub proof fn lemma_sweep_between_deadlines(
    v: StoreModel,
    k1: Seq<char>,
    k2: Seq<char>,
    k3: Seq<char>,
    d1: u64,
    d2: u64,
    d3: u64,
    now: u64,
)
    requires
        !v.shutdown,
        v.entries.contains_key(k1) && v.entries[k1].expires_at == Some(d1),
        v.entries.contains_key(k2) && v.entries[k2].expires_at == Some(d2),
        v.entries.contains_key(k3) && v.entries[k3].expires_at == Some(d3),
        d1 < d2 < d3,
        d2 <= now < d3,
    ensures
        ({
            let w = after_sweep(v, now);
            &&& !w.entries.contains_key(k1)
            &&& !w.entries.contains_key(k2)
            &&& w.entries.contains_key(k3) && w.entries[k3] == v.entries[k3]
            &&& lookup(w, k3, now) == Some(v.entries[k3].data)
            &&& forall|k: Seq<char>| #[trigger]
                v.entries.contains_key(k) && !expired(v.entries[k].expires_at, now) ==> w.entries.contains_key(k)
                    && w.entries[k] == v.entries[k]
        }),
{
}

/// While the sweeper waits for `d_far`, setting a key with an earlier
/// deadline `d_near` wakes it, makes `d_near` the next deadline, and any
/// sweep from `d_near` on removes the key.
pub proof fn lemma_no_oversleep(v: StoreModel, key: Seq<char>, data: Seq<u8>, d_near: u64, d_far: u64)
    requires
        consistent(v),
        !v.shutdown,
        is_next(v, Some(d_far)),
        d_near < d_far,
    ensures
        wakes(v, Some(d_near)),
        is_next(after_set(v, key, data, Some(d_near)), Some(d_near)),
        forall|now: u64|
            d_near <= now ==> !(#[trigger] after_sweep(after_set(v, key, data, Some(d_near)), now)).entries.contains_key(key),
{
    let w = after_set(v, key, data, Some(d_near));
    assert(w.expirations.contains((d_near, key)));
    assert forall|p: (u64, Seq<char>)| #[trigger] w.expirations.contains(p) implies d_near <= p.0 by {
        if p.1 != key {
            assert(v.expirations.contains(p));
        }
    }
}

/// Once the store is shut down, a sweep changes nothing.
pub proof fn lemma_no_sweep_after_shutdown(v: StoreModel, now: u64)
    ensures
        after_sweep(after_shutdown(v), now) == after_shutdown(v),
{
}

} // verus!
