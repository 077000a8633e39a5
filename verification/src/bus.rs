//! Trusted surface over tokio's broadcast channel, the per-room event bus.
//! Delivery is best-effort by design: a room with no subscribers swallows
//! events, and a slow subscriber may drop some; every consumer re-reads room
//! state, so nothing is lost but an intermediate view.

use vstd::prelude::*;

use crate::rooms::ActionEvent;

verus! {

#[verifier::external_type_specification]
#[verifier::external_body]
#[verifier::reject_recursive_types(T)]
pub struct ExSender<T>(tokio::sync::broadcast::Sender<T>);

#[verifier::external_type_specification]
#[verifier::external_body]
#[verifier::reject_recursive_types(T)]
pub struct ExReceiver<T>(tokio::sync::broadcast::Receiver<T>);

/// Relies on tokio::sync::broadcast::channel: a fan-out queue buffering up
/// to `capacity` events per receiver. It panics only when `capacity` is
/// zero or above `usize::MAX / 2`, which the precondition rules out.
#[verifier::external_body]
pub fn bus_channel(capacity: usize) -> (r: (
    tokio::sync::broadcast::Sender<ActionEvent>,
    tokio::sync::broadcast::Receiver<ActionEvent>,
))
    requires
        1 <= capacity <= usize::MAX / 2,
{
    tokio::sync::broadcast::channel(capacity)
}

/// Relies on tokio::sync::broadcast::Sender::send: the event reaches every
/// currently subscribed receiver's buffer; `true` reports that at least one
/// receiver existed. The room engine ignores the flag — publishing into an
/// empty room is legal.
#[verifier::external_body]
pub fn bus_publish(tx: &tokio::sync::broadcast::Sender<ActionEvent>, event: ActionEvent) -> (ok:
    bool) {
    tx.send(event).is_ok()
}

/// Relies on tokio::sync::broadcast::Sender::subscribe: a fresh receiver
/// that sees only events published after this call.
#[verifier::external_body]
pub fn bus_subscribe(tx: &tokio::sync::broadcast::Sender<ActionEvent>) -> (rx:
    tokio::sync::broadcast::Receiver<ActionEvent>) {
    tx.subscribe()
}

} // verus!
