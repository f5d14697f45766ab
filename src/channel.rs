use tokio::sync::broadcast::error::SendError;
use tokio::sync::broadcast::{Receiver, Sender};
use vstd::prelude::*;

verus! {

/// tokio's broadcast sender, carried opaquely as a topic's channel.
#[verifier::external_type_specification]
#[verifier::external_body]
#[verifier::reject_recursive_types(T)]
pub struct ExSender<T>(Sender<T>);

/// tokio's broadcast receiver, handed out to subscribers.
#[verifier::external_type_specification]
#[verifier::external_body]
#[verifier::reject_recursive_types(T)]
pub struct ExReceiver<T>(Receiver<T>);

/// tokio's error for a send that found no receiver.
#[verifier::external_type_specification]
#[verifier::external_body]
#[verifier::reject_recursive_types(T)]
pub struct ExSendError<T>(SendError<T>);

/// Relies on `tokio::sync::broadcast::Sender::new`: it creates a channel with
/// no receivers and panics unless `0 < capacity <= usize::MAX / 2`.
pub assume_specification<T>[ Sender::<T>::new ](capacity: usize) -> Sender<T>
    requires
        0 < capacity <= usize::MAX / 2,
;

/// Relies on `tokio::sync::broadcast::Sender::send`: it fails when the
/// channel has no receiver, and otherwise returns how many receivers there
/// are, at least one.
pub assume_specification<T>[ Sender::<T>::send ](s: &Sender<T>, value: T) -> (r: Result<
    usize,
    SendError<T>,
>)
    ensures
        r matches Ok(n) ==> n > 0,
;

/// Relies on `tokio::sync::broadcast::Sender::subscribe`: a new receiver
/// that sees the values sent after this call.
pub assume_specification<T>[ Sender::<T>::subscribe ](s: &Sender<T>) -> Receiver<T>;

} // verus!
