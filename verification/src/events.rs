//! The bounded event path: a non-blocking queue with a required lane and a low-priority
//! diagnostic lane, and the sink that fans each event out to the attempt-stage ledger and the
//! queue.
//!
//! The queue's admission result is authoritative: a required event that finds its lane full is
//! reported as an explicit `RequiredQueueFull` loss, and only diagnostics are ever dropped.
//! The ledger records an attempt terminal before the queue decides, so a saturated queue cannot
//! hide the stage, and what the ledger reports never changes what the sink returns.
use vstd::prelude::*;
use crate::errors::GatewayError;
use crate::stage_ledger::{AttemptStageLedger, EventEmission, LedgerView};

verus! {

/// One event of the data plane.
#[derive(Clone, Debug, PartialEq, Eq)]
pub enum GatewayEvent {
    /// The terminal of one attempt of a request; required.
    Attempt { request_id: String, attempt_id: String, succeeded: bool },
    /// A low-priority diagnostic.
    Diagnostic { error: GatewayError },
}

/// The loss counters of a queue.
#[derive(Clone, Copy, Debug, PartialEq, Eq, Structural)]
pub struct EventQueueMetrics {
    pub required_queue_full: u64,
    pub diagnostics_dropped: u64,
}

/// The specification-level state of a [`BoundedEventQueue`].
pub struct QueueView {
    pub required: Seq<GatewayEvent>,
    pub diagnostics: Seq<GatewayEvent>,
    pub required_capacity: nat,
    pub diagnostic_capacity: nat,
    pub metrics: EventQueueMetrics,
}

/// `n` plus one, saturating at `u64::MAX`.
pub open spec fn count_one(n: u64) -> u64 {
    if n < u64::MAX {
        (n + 1) as u64
    } else {
        n
    }
}

impl QueueView {
    /// Each lane holds at most its capacity.
    pub open spec fn wf(self) -> bool {
        self.required.len() <= self.required_capacity && self.diagnostics.len() <= self.diagnostic_capacity
    }

    /// What admitting `e` reports: `Enqueued` while its lane has room, otherwise an explicit
    /// required loss, or a diagnostic drop.
    pub open spec fn admission(self, e: GatewayEvent) -> EventEmission {
        match e {
            GatewayEvent::Attempt { .. } => if self.required.len() < self.required_capacity {
                EventEmission::Enqueued
            } else {
                EventEmission::RequiredQueueFull
            },
            GatewayEvent::Diagnostic { .. } => if self.diagnostics.len() < self.diagnostic_capacity {
                EventEmission::Enqueued
            } else {
                EventEmission::DiagnosticDropped
            },
        }
    }

    /// The queue after admitting `e`: appended to its lane when there is room, otherwise the
    /// lane's loss counter counts it.
    pub open spec fn after_emit(self, e: GatewayEvent) -> QueueView {
        match e {
            GatewayEvent::Attempt { .. } => if self.required.len() < self.required_capacity {
                QueueView { required: self.required.push(e), ..self }
            } else {
                QueueView {
                    metrics: EventQueueMetrics {
                        required_queue_full: count_one(self.metrics.required_queue_full),
                        ..self.metrics
                    },
                    ..self
                }
            },
            GatewayEvent::Diagnostic { .. } => if self.diagnostics.len() < self.diagnostic_capacity {
                QueueView { diagnostics: self.diagnostics.push(e), ..self }
            } else {
                QueueView {
                    metrics: EventQueueMetrics {
                        diagnostics_dropped: count_one(self.metrics.diagnostics_dropped),
                        ..self.metrics
                    },
                    ..self
                }
            },
        }
    }
}

/// A non-blocking bounded event queue with a required lane and a diagnostic lane.
pub struct BoundedEventQueue {
    required: Vec<GatewayEvent>,
    diagnostics: Vec<GatewayEvent>,
    required_capacity: usize,
    diagnostic_capacity: usize,
    metrics: EventQueueMetrics,
}

impl View for BoundedEventQueue {
    type V = QueueView;

    closed spec fn view(&self) -> QueueView {
        QueueView {
            required: self.required@,
            diagnostics: self.diagnostics@,
            required_capacity: self.required_capacity as nat,
            diagnostic_capacity: self.diagnostic_capacity as nat,
            metrics: self.metrics,
        }
    }
}

impl BoundedEventQueue {
    /// An empty queue whose lanes hold `required_capacity` and `diagnostic_capacity` events.
    pub fn new(required_capacity: usize, diagnostic_capacity: usize) -> (q: Self)
        ensures
            q@.wf(),
            q@.required == Seq::<GatewayEvent>::empty(),
            q@.diagnostics == Seq::<GatewayEvent>::empty(),
            q@.required_capacity == required_capacity,
            q@.diagnostic_capacity == diagnostic_capacity,
            q@.metrics == (EventQueueMetrics { required_queue_full: 0, diagnostics_dropped: 0 }),
    {
        BoundedEventQueue {
            required: Vec::new(),
            diagnostics: Vec::new(),
            required_capacity,
            diagnostic_capacity,
            metrics: EventQueueMetrics { required_queue_full: 0, diagnostics_dropped: 0 },
        }
    }

    /// The loss counters.
    pub fn metrics(&self) -> (m: EventQueueMetrics)
        ensures
            m == self@.metrics,
    {
        self.metrics
    }

    /// Admits one event without blocking and reports the admission.
    pub fn try_emit(&mut self, event: GatewayEvent) -> (r: EventEmission)
        requires
            old(self)@.wf(),
        ensures
            final(self)@ == old(self)@.after_emit(event),
            final(self)@.wf(),
            r == old(self)@.admission(event),
    {
        let ghost e = event;
        match event {
            GatewayEvent::Attempt { .. } => {
                if self.required.len() < self.required_capacity {
                    self.required.push(event);
                    EventEmission::Enqueued
                } else {
                    if self.metrics.required_queue_full < u64::MAX {
                        self.metrics.required_queue_full = self.metrics.required_queue_full + 1;
                    }
                    EventEmission::RequiredQueueFull
                }
            },
            GatewayEvent::Diagnostic { .. } => {
                if self.diagnostics.len() < self.diagnostic_capacity {
                    self.diagnostics.push(event);
                    EventEmission::Enqueued
                } else {
                    if self.metrics.diagnostics_dropped < u64::MAX {
                        self.metrics.diagnostics_dropped = self.metrics.diagnostics_dropped + 1;
                    }
                    EventEmission::DiagnosticDropped
                }
            },
        }
    }

    /// Receives the oldest queued event, required ones first.
    pub fn take(&mut self) -> (r: Option<GatewayEvent>)
        requires
            old(self)@.wf(),
        ensures
            final(self)@.wf(),
            final(self)@.required_capacity == old(self)@.required_capacity,
            final(self)@.diagnostic_capacity == old(self)@.diagnostic_capacity,
            final(self)@.metrics == old(self)@.metrics,
            old(self)@.required.len() > 0 ==> r == Some(old(self)@.required[0]) && final(self)@.required
                == old(self)@.required.drop_first() && final(self)@.diagnostics == old(self)@.diagnostics,
            old(self)@.required.len() == 0 && old(self)@.diagnostics.len() > 0 ==> r == Some(old(self)@.diagnostics[0])
                && final(self)@.diagnostics == old(self)@.diagnostics.drop_first()
                && final(self)@.required == old(self)@.required,
            old(self)@.required.len() == 0 && old(self)@.diagnostics.len() == 0 ==> r is None
                && final(self)@ == old(self)@,
    {
        if self.required.len() > 0 {
            let e = self.required.remove(0);
            assert(self.required@ =~= old(self)@.required.drop_first());
            Some(e)
        } else if self.diagnostics.len() > 0 {
            let e = self.diagnostics.remove(0);
            assert(self.diagnostics@ =~= old(self)@.diagnostics.drop_first());
            Some(e)
        } else {
            None
        }
    }
}

/// Fans each event out to the attempt-stage ledger and the bounded queue.
pub struct FanoutEventSink {
    pub attempts: AttemptStageLedger,
    pub queue: BoundedEventQueue,
}

/// The ledger after the sink saw `e`: an attempt terminal is recorded, anything else leaves it.
pub open spec fn ledger_after_event(l: LedgerView, e: GatewayEvent) -> LedgerView {
    match e {
        GatewayEvent::Attempt { request_id, attempt_id, succeeded } => l.after_terminal(
            request_id@,
            attempt_id@,
            succeeded,
        ),
        GatewayEvent::Diagnostic { .. } => l,
    }
}

impl FanoutEventSink {
    /// A sink over `attempts` and `queue`.
    pub fn new(attempts: AttemptStageLedger, queue: BoundedEventQueue) -> (s: Self)
        ensures
            s.attempts@ == attempts@,
            s.queue@ == queue@,
    {
        FanoutEventSink { attempts, queue }
    }

    /// Records an attempt terminal in the ledger first, then admits the event to the queue,
    /// whose admission is the result.
    pub fn try_emit(&mut self, event: GatewayEvent) -> (r: EventEmission)
        requires
            old(self).attempts@.wf(),
            old(self).queue@.wf(),
        ensures
            final(self).attempts@ == ledger_after_event(old(self).attempts@, event),
            final(self).attempts@.wf(),
            final(self).queue@ == old(self).queue@.after_emit(event),
            final(self).queue@.wf(),
            r == old(self).queue@.admission(event),
    {
        fanout_try_emit(&mut self.attempts, &mut self.queue, event)
    }
}

/// Fans one event out to a ledger and a queue held apart: an attempt terminal is recorded in
/// the ledger first, then the queue admits the event, and its admission is the result.
pub fn fanout_try_emit(
    attempts: &mut AttemptStageLedger,
    queue: &mut BoundedEventQueue,
    event: GatewayEvent,
) -> (r: EventEmission)
    requires
        old(attempts)@.wf(),
        old(queue)@.wf(),
    ensures
        final(attempts)@ == ledger_after_event(old(attempts)@, event),
        final(attempts)@.wf(),
        final(queue)@ == old(queue)@.after_emit(event),
        final(queue)@.wf(),
        r == old(queue)@.admission(event),
{
    match &event {
        GatewayEvent::Attempt { request_id, attempt_id, succeeded } => {
            let _stage_projection = attempts.record_terminal(request_id, attempt_id, *succeeded);
        },
        GatewayEvent::Diagnostic { .. } => {},
    }
    queue.try_emit(event)
}

/// What the sink returns is the queue's admission alone: two sinks whose queues agree return
/// the same for the same event, whatever their ledgers hold or report.
pub proof fn lemma_the_ledger_never_changes_the_sink_result(
    a: QueueView,
    b: QueueView,
    e: GatewayEvent,
)
    requires
        a.required.len() == b.required.len(),
        a.diagnostics.len() == b.diagnostics.len(),
        a.required_capacity == b.required_capacity,
        a.diagnostic_capacity == b.diagnostic_capacity,
    ensures
        a.admission(e) == b.admission(e),
        e is Attempt && a.required.len() >= a.required_capacity ==> a.admission(e)
            == EventEmission::RequiredQueueFull,
        e is Attempt ==> a.admission(e) != EventEmission::DiagnosticDropped,
{
}

} // verus!
