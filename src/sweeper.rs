use crate::model::{after_sweep, is_next};
use crate::store::Store;
use vstd::prelude::*;

verus! {

/// What the sweeper does after a round.
#[derive(Debug, Clone, Copy, PartialEq, Eq)]
pub enum SweepPhase {
    /// Sleep until this deadline or until woken, whichever comes first.
    WaitingUntil(u64),
    /// Nothing is due to expire: sleep until woken.
    WaitingForSignal,
    /// The store was shut down: the sweeper ends.
    Stopped,
}

/// One round of the sweeper at `now`. A store that was shut down stops it
/// and is left as it is; otherwise every entry whose deadline has passed is
/// removed, and the sweeper waits for the deadline that comes next, or for a
/// signal when none is left.
pub fn sweep(store: &mut Store, now: u64) -> (r: SweepPhase)
    requires
        old(store).wf(),
    ensures
        final(store).wf(),
        final(store)@ == after_sweep(old(store)@, now),
        match r {
            SweepPhase::Stopped => old(store)@.shutdown,
            SweepPhase::WaitingUntil(t) => !old(store)@.shutdown && is_next(final(store)@, Some(t)),
            SweepPhase::WaitingForSignal => !old(store)@.shutdown && is_next(final(store)@, None),
        },
{
    if store.is_shutdown() {
        return SweepPhase::Stopped;
    }
    match store.purge_expired_keys(now) {
        Some(t) => SweepPhase::WaitingUntil(t),
        None => SweepPhase::WaitingForSignal,
    }
}

} // verus!
