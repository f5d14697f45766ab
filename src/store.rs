use crate::index::ExpirationIndex;
use crate::model::{
    after_delete, after_register, after_set, after_shutdown, after_sweep, consistent, deadline,
    expired, index_of, is_next, live_entries, lookup, wakes, EntryView, StoreModel,
};
use tokio::sync::broadcast::{Receiver, Sender};
use vstd::hash_map::StringHashMap;
use vstd::prelude::*;

verus! {

/// How many messages a topic's channel keeps for a slow subscriber.
pub const CHANNEL_CAPACITY: usize = 1024;

/// A stored value and its deadline, if it has one.
pub struct Entry {
    pub data: Vec<u8>,
    pub expires_at: Option<u64>,
}

impl View for Entry {
    type V = EntryView;

    open spec fn view(&self) -> EntryView {
        EntryView { data: self.data@, expires_at: self.expires_at }
    }
}

/// The shared state of a store: entries, their expiration index, the topic
/// channels and the shutdown flag. Every operation keeps the index in step
/// with the entries.
pub struct Store {
    entries: StringHashMap<Entry>,
    expirations: ExpirationIndex,
    pub_sub: StringHashMap<Sender<Vec<u8>>>,
    shutdown: bool,
}

impl View for Store {
    type V = StoreModel;

    closed spec fn view(&self) -> StoreModel {
        StoreModel {
            entries: self.entries@.map_values(|e: Entry| e@),
            expirations: self.expirations@,
            topics: self.pub_sub@.dom(),
            shutdown: self.shutdown,
        }
    }
}

/// Adds `ttl` ticks to `now`, staying at `u64::MAX` past the clock's range.
pub fn deadline_after(now: u64, ttl: Option<u64>) -> (r: Option<u64>)
    ensures
        r == deadline(now, ttl),
{
    match ttl {
        Some(d) => {
            if d > u64::MAX - now {
                Some(u64::MAX)
            } else {
                Some(now + d)
            }
        },
        None => None,
    }
}

impl Store {
    /// The expiration index is well formed and agrees with the entries.
    pub closed spec fn wf(&self) -> bool {
        &&& self.expirations.wf()
        &&& consistent(self@)
    }

    /// A key has a pair in the expiration index exactly when its entry has a
    /// deadline, and the pair carries that deadline.
    pub proof fn lemma_index_agrees(&self)
        requires
            self.wf(),
        ensures
            consistent(self@),
            forall|t: u64, k: Seq<char>| #[trigger]
                self@.expirations.contains((t, k)) <==> (self@.entries.contains_key(k)
                    && self@.entries[k].expires_at == Some(t)),
    {
    }

    /// An empty store that is not shut down.
    pub fn new() -> (r: Store)
        ensures
            r.wf(),
            r@.entries == Map::<Seq<char>, EntryView>::empty(),
            r@.expirations == Set::<(u64, Seq<char>)>::empty(),
            r@.topics == Set::<Seq<char>>::empty(),
            !r@.shutdown,
    {
        let r = Store {
            entries: StringHashMap::new(),
            expirations: ExpirationIndex::new(),
            pub_sub: StringHashMap::new(),
            shutdown: false,
        };
        assert(r@.entries =~= Map::<Seq<char>, EntryView>::empty());
        assert(r@.topics =~= Set::<Seq<char>>::empty());
        assert(index_of(r@.entries) =~= Set::<(u64, Seq<char>)>::empty());
        r
    }

    /// The deadline of the entry under `key`, if there is one.
    fn deadline_of(&self, key: &str) -> (r: Option<u64>)
        ensures
            r == (if self@.entries.contains_key(key@) {
                self@.entries[key@].expires_at
            } else {
                None
            }),
    {
        match self.entries.get(key) {
            Some(e) => e.expires_at,
            None => None,
        }
    }

    /// The value under `key` at `now`; an entry whose deadline has passed
    /// reads as absent, and so does every key of a store that was shut down.
    pub fn get(&self, key: &str, now: u64) -> (r: Option<Vec<u8>>)
        ensures
            match r {
                Some(d) => lookup(self@, key@, now) == Some(d@),
                None => lookup(self@, key@, now) is None,
            },
    {
        if self.shutdown {
            return None;
        }
        match self.entries.get(key) {
            Some(e) => {
                let live = match e.expires_at {
                    Some(t) => now < t,
                    None => true,
                };
                if live {
                    let d = e.data.clone();
                    assert(d@ =~= e.data@);
                    Some(d)
                } else {
                    None
                }
            },
            None => None,
        }
    }

    /// The earliest deadline of the index, if any.
    pub fn next_expiration(&self) -> (r: Option<u64>)
        requires
            self.wf(),
        ensures
            is_next(self@, r),
    {
        self.expirations.first_deadline()
    }

    /// Whether the store was shut down.
    pub fn is_shutdown(&self) -> (r: bool)
        ensures
            r == self@.shutdown,
    {
        self.shutdown
    }

    /// Marks the store as shut down.
    pub fn shutdown(&mut self)
        requires
            old(self).wf(),
        ensures
            final(self).wf(),
            final(self)@ == after_shutdown(old(self)@),
    {
        self.shutdown = true;
    }

    /// Takes the pair of `key` out of the index; afterwards no pair holds it.
    fn unindex(&mut self, key: &String)
        requires
            old(self).wf(),
        ensures
            final(self).expirations.wf(),
            final(self).entries == old(self).entries,
            final(self).pub_sub == old(self).pub_sub,
            final(self).shutdown == old(self).shutdown,
            forall|p: (u64, Seq<char>)| #[trigger]
                final(self)@.expirations.contains(p) <==> (index_of(old(self)@.entries).contains(p)
                    && p.1 != key@),
            !ExpirationIndex::has_key(final(self)@.expirations, key@),
    {
        let prev = self.deadline_of(key.as_str());
        match prev {
            Some(t0) => {
                self.expirations.remove(t0, key);
            },
            None => {
                assert(!self@.entries.contains_key(key@) || self@.entries[key@].expires_at is None);
            },
        }
    }

    /// Sets `key` to `value`, expiring `ttl` ticks after `now` if `ttl` is
    /// given. Returns whether the sweeper must be woken: the new deadline
    /// comes before every deadline the index held. A store that was shut
    /// down ignores the write.
    pub fn set(&mut self, key: String, value: Vec<u8>, now: u64, ttl: Option<u64>) -> (wake: bool)
        requires
            old(self).wf(),
        ensures
            final(self).wf(),
            final(self)@ == after_set(old(self)@, key@, value@, deadline(now, ttl)),
            wake == wakes(old(self)@, deadline(now, ttl)),
    {
        let expires_at = deadline_after(now, ttl);
        if self.shutdown {
            return false;
        }
        let wake = match expires_at {
            Some(t) => match self.expirations.first_deadline() {
                Some(n) => t < n,
                None => true,
            },
            None => false,
        };
        let ghost v0 = self@;
        let ghost k = key@;
        self.unindex(&key);
        match expires_at {
            Some(t) => {
                self.expirations.insert(t, key.clone());
            },
            None => {},
        }
        self.entries.insert(key, Entry { data: value, expires_at });
        proof {
            let ev = EntryView { data: value@, expires_at };
            assert(self@.entries =~= v0.entries.insert(k, ev));
            assert(self@.expirations =~= index_of(v0.entries.insert(k, ev)));
            assert(self@ =~= after_set(v0, k, value@, expires_at));
        }
        wake
    }

    /// Removes `key` and its pair in the index; nothing changes where it is
    /// absent, or where the store was shut down.
    pub fn delete(&mut self, key: &str)
        requires
            old(self).wf(),
        ensures
            final(self).wf(),
            final(self)@ == after_delete(old(self)@, key@),
    {
        if self.shutdown {
            return;
        }
        let owned = key.to_owned();
        let ghost v0 = self@;
        self.unindex(&owned);
        self.entries.remove(key);
        proof {
            assert(self@.entries =~= v0.entries.remove(key@));
            assert(self@.expirations =~= index_of(v0.entries.remove(key@)));
            assert(self@ =~= after_delete(v0, key@));
        }
    }

    /// A store taken from `v0` by removing expired entries only, whose index
    /// holds no deadline that has passed, is `v0` swept at `now`.
    proof fn lemma_swept(&self, v0: StoreModel, now: u64)
        requires
            self.wf(),
            !v0.shutdown,
            self@.shutdown == v0.shutdown,
            self@.topics == v0.topics,
            forall|p: (u64, Seq<char>)| #[trigger] self@.expirations.contains(p) ==> now < p.0,
            forall|k: Seq<char>| #[trigger]
                self@.entries.contains_key(k) ==> v0.entries.contains_key(k) && self@.entries[k]
                    == v0.entries[k],
            forall|k: Seq<char>| #[trigger]
                v0.entries.contains_key(k) && !self@.entries.contains_key(k) ==> expired(
                    v0.entries[k].expires_at,
                    now,
                ),
        ensures
            self@ == after_sweep(v0, now),
    {
        assert forall|k: Seq<char>| #[trigger]
            self@.entries.contains_key(k) implies !expired(self@.entries[k].expires_at, now) by {
            if let Some(tk) = self@.entries[k].expires_at {
                assert(self@.expirations.contains((tk, k)));
            }
        }
        assert(self@.entries =~= live_entries(v0, now));
        assert(self@ =~= after_sweep(v0, now));
    }

    /// Removes every entry whose deadline has passed at `now`, earliest
    /// first, and returns the deadline that comes next, if any. A store that
    /// was shut down is left as it is and gives none.
    pub fn purge_expired_keys(&mut self, now: u64) -> (r: Option<u64>)
        requires
            old(self).wf(),
        ensures
            final(self).wf(),
            final(self)@ == after_sweep(old(self)@, now),
            old(self)@.shutdown ==> r is None,
            !old(self)@.shutdown ==> is_next(final(self)@, r),
    {
        if self.shutdown {
            return None;
        }
        let ghost v0 = self@;
        loop
            invariant
                self.wf(),
                v0 == old(self)@,
                !v0.shutdown,
                !self@.shutdown,
                self@.topics == v0.topics,
                forall|k: Seq<char>| #[trigger]
                    self@.entries.contains_key(k) ==> v0.entries.contains_key(k) && self@.entries[k]
                        == v0.entries[k],
                forall|k: Seq<char>| #[trigger]
                    v0.entries.contains_key(k) && !self@.entries.contains_key(k) ==> expired(
                        v0.entries[k].expires_at,
                        now,
                    ),
            decreases self.expirations.size(),
        {
            let next = self.expirations.first_deadline();
            match next {
                Some(t) => {
                    if t > now {
                        proof {
                            self.lemma_swept(v0, now);
                        }
                        return Some(t);
                    }
                    let popped = self.expirations.pop_first();
                    match popped {
                        Some(p) => {
                            let ghost v1 = self@;
                            self.entries.remove(p.1.as_str());
                            proof {
                                assert(self@.entries =~= v1.entries.remove(p.1@));
                                assert(self@.expirations =~= index_of(self@.entries));
                            }
                        },
                        None => {},
                    }
                },
                None => {
                    proof {
                        self.lemma_swept(v0, now);
                    }
                    return None;
                },
            }
        }
    }

    /// Sends `payload` to the subscribers of `topic` and returns how many
    /// there were. A topic seen for the first time gets a channel; nobody can
    /// be listening on it yet, so the count is zero.
    pub fn publish(&mut self, topic: String, payload: Vec<u8>) -> (r: usize)
        requires
            old(self).wf(),
        ensures
            final(self).wf(),
            final(self)@ == after_register(old(self)@, topic@),
            !old(self)@.topics.contains(topic@) ==> r == 0,
    {
        let ghost v0 = self@;
        let r = match self.pub_sub.get(topic.as_str()) {
            Some(tx) => match tx.send(payload) {
                Ok(n) => n,
                Err(_) => 0,
            },
            None => {
                let tx = Sender::new(CHANNEL_CAPACITY);
                self.pub_sub.insert(topic, tx);
                0
            },
        };
        assert(self@.topics =~= v0.topics.insert(topic@));
        assert(self@ =~= after_register(v0, topic@));
        r
    }

    /// A receiver for the messages published to `topic` from now on. A topic
    /// seen for the first time gets a channel.
    pub fn subscribe(&mut self, topic: String) -> (r: Receiver<Vec<u8>>)
        requires
            old(self).wf(),
        ensures
            final(self).wf(),
            final(self)@ == after_register(old(self)@, topic@),
    {
        let ghost v0 = self@;
        let r = match self.pub_sub.get(topic.as_str()) {
            Some(tx) => tx.subscribe(),
            None => {
                let tx = Sender::new(CHANNEL_CAPACITY);
                let rx = tx.subscribe();
                self.pub_sub.insert(topic, tx);
                rx
            },
        };
        assert(self@.topics =~= v0.topics.insert(topic@));
        assert(self@ =~= after_register(v0, topic@));
        r
    }
}

} // verus!
