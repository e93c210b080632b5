//! Events, the frames that a pipe carries to a peer node, and the pipe
//! itself: a bounded queue of tokio whose far end forwards to the peer.
use vstd::prelude::*;

verus! {

/// One event written into a channel. `timestamp` is in milliseconds since
/// the Unix epoch; `body` is JSON text.
#[derive(Clone)]
pub struct Event {
    pub stream_id: String,
    pub event_id: String,
    pub timestamp: u64,
    pub body: String,
}

impl Event {
    /// A copy of the event.
    pub fn duplicate(&self) -> (r: Event)
        ensures
            r == *self,
    {
        Event {
            stream_id: self.stream_id.clone(),
            event_id: self.event_id.clone(),
            timestamp: self.timestamp,
            body: self.body.clone(),
        }
    }
}

/// What one node tells a peer about an agent it forwards.
pub enum SyncEvent {
    PipeAgentStart { name: String, key: Vec<u8> },
    PipeAgentEnd { name: String },
    ChannelCreated { id: String },
    ChannelDisposed { id: String },
    EventReceived { channel: String, event: Event },
}

#[verifier::external_type_specification]
#[verifier::external_body]
#[verifier::reject_recursive_types(T)]
pub struct ExSender<T>(tokio::sync::mpsc::Sender<T>);

/// The sending end of a pipe to a peer node.
pub struct Pipe {
    tx: tokio::sync::mpsc::Sender<SyncEvent>,
}

/// Relies on tokio's `Sender::try_send`: whether the frame was queued
/// depends on the queue, so nothing is promised.
#[verifier::external_body]
fn sender_try_send(tx: &tokio::sync::mpsc::Sender<SyncEvent>, ev: SyncEvent) -> (r: bool) {
    tx.try_send(ev).is_ok()
}

/// Relies on tokio's `Sender::clone`: another handle on the same queue.
#[verifier::external_body]
fn sender_clone(tx: &tokio::sync::mpsc::Sender<SyncEvent>) -> (r: tokio::sync::mpsc::Sender<
    SyncEvent,
>) {
    tx.clone()
}

/// The frame that hands a peer an event written at `address`.
pub fn event_frame(address: &str, event: &Event) -> (r: SyncEvent)
    ensures
        r matches SyncEvent::EventReceived { channel, event: e } && channel@ == address@ && e == *event,
{
    SyncEvent::EventReceived { channel: String::from_str(address), event: event.duplicate() }
}

impl Pipe {
    pub fn new(tx: tokio::sync::mpsc::Sender<SyncEvent>) -> (r: Pipe) {
        Pipe { tx }
    }

    /// Queues a frame without waiting; false when the queue is full or closed.
    pub fn try_send(&self, ev: SyncEvent) -> (r: bool) {
        sender_try_send(&self.tx, ev)
    }

    pub fn duplicate(&self) -> (r: Pipe) {
        Pipe { tx: sender_clone(&self.tx) }
    }
}

} // verus!
