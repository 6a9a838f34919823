//! Sending on broadcast channels with an eye on backpressure: a queue that
//! reaches the warning threshold means receivers are falling behind; counts
//! of sent, dropped and pressured sends are kept.
use vstd::prelude::*;

verus! {

/// Queue length from which a channel counts as under pressure (about 75% of
/// the usual 256-message capacity).
pub const DEFAULT_WARNING_THRESHOLD: usize = 192;

#[verifier::external_type_specification]
#[verifier::external_body]
#[verifier::reject_recursive_types(T)]
pub struct ExBroadcastSender<T>(tokio::sync::broadcast::Sender<T>);

/// The number of values queued in a broadcast channel (`Sender::len`). It
/// depends on what the receivers have read, so nothing is stated of it.
#[verifier::external_body]
fn queued_len<T>(tx: &tokio::sync::broadcast::Sender<T>) -> usize {
    tx.len()
}

/// Send a value on a broadcast channel (`Sender::send`): `true` where a
/// receiver was subscribed, `false` where the value was dropped for want of
/// one. Which holds depends on the receivers alive, so nothing is stated of
/// it.
#[verifier::external_body]
fn broadcast_send<T>(tx: &tokio::sync::broadcast::Sender<T>, msg: T) -> bool {
    match tx.send(msg) {
        Ok(_) => true,
        Err(_) => false,
    }
}

/// Counters of a channel's health.
#[derive(Debug)]
pub struct ChannelMetrics {
    /// Messages sent to at least one receiver.
    pub messages_sent: u64,
    /// Messages dropped for want of receivers.
    pub messages_dropped: u64,
    /// Sends made while the queue was at the warning threshold or above.
    pub backpressure_warnings: u64,
}

/// The counters at a point in time.
#[derive(Clone, Copy, Debug, PartialEq, Eq, Structural)]
pub struct ChannelMetricsSnapshot {
    pub messages_sent: u64,
    pub messages_dropped: u64,
    pub backpressure_warnings: u64,
}

/// A counter after one more event (counters wrap around, as atomic
/// counters do).
pub open spec fn bumped(n: u64) -> u64 {
    if n == u64::MAX {
        0
    } else {
        (n + 1) as u64
    }
}

/// Whether a queue of this length means receivers are falling behind.
pub open spec fn pressured(queue_len: usize) -> bool {
    queue_len >= DEFAULT_WARNING_THRESHOLD
}

impl Default for ChannelMetrics {
    fn default() -> (m: ChannelMetrics)
        ensures
            m.messages_sent == 0,
            m.messages_dropped == 0,
            m.backpressure_warnings == 0,
    {
        ChannelMetrics { messages_sent: 0, messages_dropped: 0, backpressure_warnings: 0 }
    }
}

impl ChannelMetrics {
    /// All counters at zero.
    pub fn new() -> (m: ChannelMetrics)
        ensures
            m.messages_sent == 0,
            m.messages_dropped == 0,
            m.backpressure_warnings == 0,
    {
        ChannelMetrics { messages_sent: 0, messages_dropped: 0, backpressure_warnings: 0 }
    }

    /// Count a sent message.
    pub fn record_sent(&mut self)
        ensures
            final(self).messages_sent == bumped(old(self).messages_sent),
            final(self).messages_dropped == old(self).messages_dropped,
            final(self).backpressure_warnings == old(self).backpressure_warnings,
    {
        self.messages_sent = if self.messages_sent == u64::MAX {
            0
        } else {
            self.messages_sent + 1
        };
    }

    /// Count a dropped message.
    pub fn record_dropped(&mut self)
        ensures
            final(self).messages_sent == old(self).messages_sent,
            final(self).messages_dropped == bumped(old(self).messages_dropped),
            final(self).backpressure_warnings == old(self).backpressure_warnings,
    {
        self.messages_dropped = if self.messages_dropped == u64::MAX {
            0
        } else {
            self.messages_dropped + 1
        };
    }

    /// Count a send under pressure.
    pub fn record_backpressure(&mut self)
        ensures
            final(self).messages_sent == old(self).messages_sent,
            final(self).messages_dropped == old(self).messages_dropped,
            final(self).backpressure_warnings == bumped(old(self).backpressure_warnings),
    {
        self.backpressure_warnings = if self.backpressure_warnings == u64::MAX {
            0
        } else {
            self.backpressure_warnings + 1
        };
    }

    /// The counters now.
    pub fn snapshot(&self) -> (s: ChannelMetricsSnapshot)
        ensures
            s.messages_sent == self.messages_sent,
            s.messages_dropped == self.messages_dropped,
            s.backpressure_warnings == self.backpressure_warnings,
    {
        ChannelMetricsSnapshot {
            messages_sent: self.messages_sent,
            messages_dropped: self.messages_dropped,
            backpressure_warnings: self.backpressure_warnings,
        }
    }
}

/// The counters after a send: a warning where the queue was under pressure,
/// then a sent or a dropped message.
pub open spec fn after_send(
    before: ChannelMetrics,
    after: ChannelMetrics,
    queue_len: usize,
    delivered: bool,
) -> bool {
    &&& after.backpressure_warnings == if pressured(queue_len) {
        bumped(before.backpressure_warnings)
    } else {
        before.backpressure_warnings
    }
    &&& after.messages_sent == if delivered {
        bumped(before.messages_sent)
    } else {
        before.messages_sent
    }
    &&& after.messages_dropped == if delivered {
        before.messages_dropped
    } else {
        bumped(before.messages_dropped)
    }
}

/// Whether a queue of this length means receivers are falling behind.
pub fn under_pressure(queue_len: usize) -> (r: bool)
    ensures
        r == pressured(queue_len),
{
    queue_len >= DEFAULT_WARNING_THRESHOLD
}

/// Count a send that found the queue at `queue_len` and was delivered or
/// dropped (see `after_send`).
pub fn record_send_outcome(metrics: &mut ChannelMetrics, queue_len: usize, delivered: bool)
    ensures
        after_send(*old(metrics), *final(metrics), queue_len, delivered),
{
    if under_pressure(queue_len) {
        metrics.record_backpressure();
    }
    if delivered {
        metrics.record_sent();
    } else {
        metrics.record_dropped();
    }
}

/// Send a message, watching the queue: a send always counts as done, even
/// when no receiver takes it.
pub fn send_with_backpressure<T: Clone>(
    tx: &tokio::sync::broadcast::Sender<T>,
    msg: T,
    channel_name: &str,
) -> (r: bool)
    ensures
        r,
{
    let _pressured = under_pressure(queued_len(tx));
    let _delivered = broadcast_send(tx, msg);
    true
}

/// Send a message, watching the queue and counting the outcome (see
/// `after_send`, for the queue length and delivery the send met); a send
/// always counts as done.
pub fn send_with_metrics<T: Clone>(
    tx: &tokio::sync::broadcast::Sender<T>,
    msg: T,
    channel_name: &str,
    metrics: &mut ChannelMetrics,
) -> (r: bool)
    ensures
        r,
        exists|queue_len: usize, delivered: bool|
            after_send(*old(metrics), *final(metrics), queue_len, delivered),
{
    let queue_len = queued_len(tx);
    let delivered = broadcast_send(tx, msg);
    record_send_outcome(metrics, queue_len, delivered);
    assert(after_send(*old(metrics), *metrics, queue_len, delivered));
    true
}

/// Whether a channel's queue is at the warning threshold or above now (see
/// `under_pressure`).
pub fn is_under_pressure<T>(tx: &tokio::sync::broadcast::Sender<T>) -> (r: bool)
    ensures
        exists|queue_len: usize| r == pressured(queue_len),
{
    let n = queued_len(tx);
    under_pressure(n)
}

} // verus!
