use vstd::prelude::*;

verus! {

// The pub/sub side of the store delivers payloads through tokio's broadcast
// channels. The channel halves are opaque here: the registry's own
// bookkeeping (which channels exist, how many subscribers each has) is
// verified, and delivery is the channel's work.

/// tokio's broadcast sender half, opaque to the verifier.
#[verifier::external_type_specification]
#[verifier::external_body]
#[verifier::reject_recursive_types(T)]
pub struct ExSender<T>(tokio::sync::broadcast::Sender<T>);

/// tokio's broadcast receiver half, opaque to the verifier.
#[verifier::external_type_specification]
#[verifier::external_body]
#[verifier::reject_recursive_types(T)]
pub struct ExReceiver<T>(tokio::sync::broadcast::Receiver<T>);

/// Relies on tokio::sync::broadcast::channel: returns a connected
/// sender/receiver pair. It panics when the capacity is zero or above
/// usize::MAX / 2, so those capacities are excluded here.
#[verifier::external_body]
pub(crate) fn broadcast_channel(capacity: usize) -> (
    tokio::sync::broadcast::Sender<Vec<u8>>,
    tokio::sync::broadcast::Receiver<Vec<u8>>,
)
    requires
        1 <= capacity <= usize::MAX / 2,
{
    tokio::sync::broadcast::channel(capacity)
}

/// Relies on tokio::sync::broadcast::Sender::subscribe: returns a new
/// receiver attached to this sender's channel; it does not panic.
#[verifier::external_body]
pub(crate) fn sender_subscribe(
    sender: &tokio::sync::broadcast::Sender<Vec<u8>>,
) -> tokio::sync::broadcast::Receiver<Vec<u8>> {
    sender.subscribe()
}

/// Relies on tokio::sync::broadcast::Sender::send: queues the payload for
/// the channel's current receivers, in publish order per receiver, without
/// blocking; with no receiver the payload is dropped. It does not panic.
#[verifier::external_body]
pub(crate) fn sender_send(sender: &tokio::sync::broadcast::Sender<Vec<u8>>, payload: Vec<u8>) {
    let _ = sender.send(payload);
}

} // verus!
