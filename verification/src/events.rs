//! The engine at work: what happened on the connections, requests that are given up, and the turn
//! that the socket layer takes again and again.

use crate::backend::{
    backend_ok, emitted, lemma_idle_dropped, lemma_transfer_taken, BackendView, Effect, EffectView,
    NativeHttpBackend,
};
use crate::dispatch::{all_closed, lemma_all_closed};
use crate::engine::settled;
use crate::pool::{dropped, idle_expired, lemma_slot_position, slot_position};
use crate::step::{
    event_taken, resumed, EventKind, EventKindView, EventView, NativeEvent, SocketReport,
};
use crate::table::{found, holds, without_id};
use crate::transfer::proven;
use std::collections::VecDeque;
use vstd::prelude::*;

verus! {

/// Whether an event only says that bytes were written.
pub open spec fn is_write(kind: EventKindView) -> bool {
    kind is WriteProgress || kind is WriteDrained
}

/// Whether an event says that the connection is of no more use.
pub open spec fn is_terminal(kind: EventKindView) -> bool {
    kind is PeerClosed || kind is Failed || kind is SessionFailed
}

/// What an event does. On an idle connection, anything but written bytes ends the connection. A
/// connection that is not known is closed once it is of no more use.
pub open spec fn event_processed(
    backend: BackendView,
    event: EventView,
    armed: bool,
    now: u64,
) -> BackendView {
    let slot = event.report.slot;
    let at = slot_position(backend.pool.idle, slot);
    if at < backend.pool.idle.len() {
        if is_write(event.kind) {
            backend
        } else {
            emitted(
                BackendView { pool: dropped(backend.pool, at), ..backend },
                EffectView::Close { slot },
            )
        }
    } else if !holds(backend.transfers, slot) {
        if is_terminal(event.kind) {
            emitted(backend, EffectView::Close { slot })
        } else {
            backend
        }
    } else {
        settled(
            BackendView { transfers: without_id(backend.transfers, slot), ..backend },
            slot,
            event_taken(proven(found(backend.transfers, slot)), event, armed, now),
            armed,
            now,
        )
    }
}

/// Whether a connection failed, according to some events.
pub open spec fn fails(events: Seq<EventView>, slot: u64) -> bool {
    exists|i: int|
        0 <= i < events.len() && (#[trigger] events[i]).kind is Failed && events[i].report.slot
            == slot
}

/// What the first events of a batch do. A connection that fails anywhere in the batch is gone
/// already: nothing more is asked of it.
pub open spec fn batch_processed(
    backend: BackendView,
    events: Seq<EventView>,
    count: nat,
    now: u64,
) -> BackendView
    decreases count,
{
    if count == 0 {
        backend
    } else {
        let event = events[count - 1];
        event_processed(
            batch_processed(backend, events, (count - 1) as nat, now),
            event,
            !fails(events, event.report.slot),
            now,
        )
    }
}

/// What a batch of events says.
pub open spec fn event_views(events: Seq<NativeEvent>) -> Seq<EventView> {
    events.map_values(|event: NativeEvent| event@)
}

/// What one more look at a connection does to the exchange that it carries. Where the request may
/// still be sent anew, the exchange has to wait for an event.
pub open spec fn stream_resumed(backend: BackendView, report: SocketReport, now: u64) -> BackendView {
    let slot = report.slot;
    if holds(backend.transfers, slot) && found(backend.transfers, slot).response is Streaming
        && found(backend.transfers, slot).exchange.fallback is None {
        settled(
            BackendView { transfers: without_id(backend.transfers, slot), ..backend },
            slot,
            resumed(found(backend.transfers, slot), report, now),
            true,
            now,
        )
    } else {
        backend
    }
}

/// What a look at the first of some connections does.
pub open spec fn streams_resumed(
    backend: BackendView,
    reports: Seq<SocketReport>,
    count: nat,
    now: u64,
) -> BackendView
    decreases count,
{
    if count == 0 {
        backend
    } else {
        stream_resumed(
            streams_resumed(backend, reports, (count - 1) as nat, now),
            reports[count - 1],
            now,
        )
    }
}

/// Idle connections whose time is up are closed.
pub open spec fn idle_closed(backend: BackendView, now: u64) -> BackendView {
    let (pool, slots) = idle_expired(backend.pool, now, 0);
    all_closed(BackendView { pool, ..backend }, slots)
}

proof fn lemma_idle_closed_ok(backend: BackendView, now: u64, from: nat)
    requires
        backend_ok(backend),
    ensures
        backend_ok(BackendView { pool: idle_expired(backend.pool, now, from).0, ..backend }),
    decreases backend.pool.idle.len() - from,
{
    if from < backend.pool.idle.len() {
        if backend.pool.idle[from as int].expires_at <= now {
            lemma_idle_dropped(backend, from as int);
            lemma_idle_closed_ok(
                BackendView { pool: dropped(backend.pool, from as int), ..backend },
                now,
                from,
            );
        } else {
            lemma_idle_closed_ok(backend, now, from + 1);
        }
    }
}

impl NativeHttpBackend {
    /// Closes the idle connections whose time is up.
    pub fn expire_idle(&mut self, now: u64)
        requires
            old(self).wf(),
        ensures
            final(self).wf(),
            final(self)@ == idle_closed(old(self)@, now),
    {
        proof {
            lemma_idle_closed_ok(self@, now, 0);
        }
        let slots = self.pool.expire_idle(now);
        proof {
            lemma_all_closed(self@, slots@);
        }
        self.close_all(&slots);
    }

    /// Closes a connection that is idle.
    fn discard_idle_slot(&mut self, slot: u64)
        requires
            old(self).wf(),
            slot_position(old(self)@.pool.idle, slot) < old(self)@.pool.idle.len(),
        ensures
            final(self).wf(),
            final(self)@ == emitted(
                BackendView {
                    pool: dropped(
                        old(self)@.pool,
                        slot_position(old(self)@.pool.idle, slot),
                    ),
                    ..old(self)@
                },
                EffectView::Close { slot },
            ),
    {
        proof {
            lemma_slot_position(self@.pool.idle, slot);
            lemma_idle_dropped(self@, slot_position(self@.pool.idle, slot));
        }
        self.pool.discard_idle_slot(slot);
        self.emit(Effect::Close { slot });
    }

    /// Takes one event.
    fn process_event(&mut self, event: NativeEvent, armed: bool, now: u64)
        requires
            old(self).wf(),
        ensures
            final(self).wf(),
            final(self)@ == event_processed(old(self)@, event@, armed, now),
    {
        let slot = event.report.slot;
        if self.pool.is_idle(slot) {
            match &event.kind {
                EventKind::WriteProgress => {},
                EventKind::WriteDrained => {},
                _ => {
                    self.discard_idle_slot(slot);
                },
            }
            return;
        }
        proof {
            if holds(self@.transfers, slot) {
                lemma_transfer_taken(self@, slot);
            }
        }
        let transfer = match self.transfers.remove(slot) {
            Some(transfer) => transfer,
            None => {
                match &event.kind {
                    EventKind::PeerClosed => {
                        self.emit(Effect::Close { slot });
                    },
                    EventKind::Failed(_) => {
                        self.emit(Effect::Close { slot });
                    },
                    EventKind::SessionFailed(_) => {
                        self.emit(Effect::Close { slot });
                    },
                    _ => {},
                }
                return;
            },
        };
        let mut transfer = transfer;
        transfer.note_event();
        let ghost step = event_taken(transfer@, event@, armed, now);
        let result = transfer.take_event(event, armed, now);
        self.settle(slot, transfer, result, armed, now, Ghost(step));
    }

    /// Takes a batch of events, in order.
    pub fn process_events(&mut self, events: VecDeque<NativeEvent>, now: u64)
        requires
            old(self).wf(),
        ensures
            final(self).wf(),
            final(self)@ == batch_processed(
                old(self)@,
                event_views(events@),
                events@.len(),
                now,
            ),
    {
        let ghost views = event_views(events@);
        let failed = failed_slots(&events);
        let mut left = events;
        while left.len() > 0
            invariant
                self.wf(),
                left@.len() <= views.len(),
                forall|i: int|
                    0 <= i < left@.len() ==> (#[trigger] left@[i])@ == views[views.len()
                        - left@.len() + i],
                forall|slot: u64| #[trigger] failed@.contains(slot) == fails(views, slot),
                self@ == batch_processed(
                    old(self)@,
                    views,
                    (views.len() - left@.len()) as nat,
                    now,
                ),
            decreases left@.len(),
        {
            if let Some(event) = left.pop_front() {
                let armed = !is_among(&failed, event.report.slot);
                self.process_event(event, armed, now);
            }
        }
    }

    /// Lets the exchange on a connection go on, where its response is delivered.
    fn resume_stream(&mut self, report: SocketReport, now: u64)
        requires
            old(self).wf(),
        ensures
            final(self).wf(),
            final(self)@ == stream_resumed(old(self)@, report, now),
    {
        let slot = report.slot;
        let streaming = match self.transfers.get(slot) {
            Some(transfer) => transfer.response.is_streaming()
                && transfer.exchange.fallback.is_none(),
            None => false,
        };
        if !streaming {
            return;
        }
        proof {
            lemma_transfer_taken(self@, slot);
        }
        if let Some(transfer) = self.transfers.remove(slot) {
            let mut transfer = transfer;
            let ghost step = resumed(transfer@, report, now);
            let result = transfer.resume(report, now);
            self.settle(slot, transfer, result, true, now, Ghost(step));
        }
    }

    /// Lets the exchanges on some connections go on, where their responses are delivered: readers may
    /// have taken bytes out, and producers may have put some in.
    pub fn resume_streams(&mut self, reports: &[SocketReport], now: u64)
        requires
            old(self).wf(),
        ensures
            final(self).wf(),
            final(self)@ == streams_resumed(old(self)@, reports@, reports@.len(), now),
    {
        let mut i: usize = 0;
        while i < reports.len()
            invariant
                self.wf(),
                i <= reports@.len(),
                self@ == streams_resumed(old(self)@, reports@, i as nat, now),
            decreases reports@.len() - i,
        {
            self.resume_stream(reports[i], now);
            i += 1;
        }
    }
}

/// What is among some numbers after one more was added.
pub proof fn lemma_contains_pushed(numbers: Seq<u64>, number: u64)
    ensures
        forall|other: u64|
            #[trigger] numbers.push(number).contains(other) == (numbers.contains(other) || other
                == number),
{
    let more = numbers.push(number);
    assert forall|other: u64| #[trigger] more.contains(other) == (numbers.contains(other) || other
        == number) by {
        if numbers.contains(other) {
            let at = choose|at: int| 0 <= at < numbers.len() && numbers[at] == other;
            assert(more[at] == other);
        }
        if other == number {
            assert(more[numbers.len() as int] == other);
        }
        if more.contains(other) && other != number {
            let at = choose|at: int| 0 <= at < more.len() && more[at] == other;
            assert(numbers[at] == other);
        }
    }
}

/// Whether a number is among some.
pub(crate) fn is_among(slots: &Vec<u64>, slot: u64) -> (result: bool)
    ensures
        result == slots@.contains(slot),
{
    let mut i: usize = 0;
    while i < slots.len()
        invariant
            i <= slots@.len(),
            forall|j: int| 0 <= j < i ==> slots@[j] != slot,
        decreases slots@.len() - i,
    {
        if slots[i] == slot {
            return true;
        }
        i += 1;
    }
    false
}

/// The connections that failed, according to some events.
fn failed_slots(events: &VecDeque<NativeEvent>) -> (result: Vec<u64>)
    ensures
        forall|slot: u64|
            #[trigger] result@.contains(slot) == fails(event_views(events@), slot),
{
    let ghost views = event_views(events@);
    let mut failed: Vec<u64> = Vec::new();
    let mut i: usize = 0;
    while i < events.len()
        invariant
            i <= events@.len(),
            views == event_views(events@),
            forall|j: int|
                0 <= j < i && (#[trigger] views[j]).kind is Failed ==> failed@.contains(
                    views[j].report.slot,
                ),
            forall|slot: u64| #[trigger] failed@.contains(slot) ==> fails(views, slot),
        decreases events@.len() - i,
    {
        let ghost before = failed@;
        match &events[i].kind {
            EventKind::Failed(_) => {
                failed.push(events[i].report.slot);
                proof {
                    let slot = views[i as int].report.slot;
                    assert(views[i as int].kind is Failed);
                    assert(fails(views, slot));
                    lemma_contains_pushed(before, slot);
                    assert(failed@ =~= before.push(slot));
                }
            },
            _ => {},
        }
        i += 1;
    }
    proof {
        assert forall|slot: u64| #[trigger] failed@.contains(slot) == fails(views, slot) by {
            if fails(views, slot) {
                let at = choose|at: int|
                    0 <= at < views.len() && (#[trigger] views[at]).kind is Failed
                        && views[at].report.slot == slot;
                assert(failed@.contains(views[at].report.slot));
            }
        }
    }
    failed
}

} // verus!
