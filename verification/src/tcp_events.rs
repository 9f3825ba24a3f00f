//! What happens on TCP connections that carry no HTTP.

use crate::control::first_number;
use crate::failure::{
    native_transport_error, standalone_connect_expired, standalone_connect_timeout, transport_failure, NativeFailure,
    NativeFailureKind, NativeFailureView,
};
use crate::standalone::{
    fresh_tcp, pressure_synced, read_ended, read_progressed, tcp_deadline, tcp_expired, tcp_ok,
    write_progressed, StandaloneInactivity, StandaloneTcp,
};
use crate::table::{found, holds, lemma_position, lemma_position_at, without_id, Queue};
use crate::tcp::{
    asked, attempt_started, failed, lemma_live_added, lemma_live_taken,
    lemma_lookup_taken, lemma_pending_taken, tcp_engine_ok, AttemptView, StandalonePending,
    StandaloneResolve, TcpEffect, TcpEffectView, TcpEngine, TcpView,
};
use crate::types::{timeout_error, Error, ErrorView, TimeoutKind};
use std::collections::VecDeque;
use vstd::prelude::*;
use vstd::string::*;

verus! {

/// How the buffers of a connection stand.
#[derive(Clone, Copy, Debug, PartialEq, Eq, Structural)]
pub struct TcpReport {
    pub slot: u64,
    /// How many bytes can be read.
    pub read_allowance: usize,
    /// How many bytes are yet to be written.
    pub send_occupancy: usize,
    /// Nothing waits in the send queue of the socket.
    pub outbound_empty: bool,
    /// The owner wants to write nothing more.
    pub finish_requested: bool,
    /// It was said to the peer that nothing more will be written.
    pub write_finished: bool,
    /// The owner let go of the connection.
    pub released: bool,
}

/// What happened on a connection.
#[derive(Debug)]
pub enum TcpEventKind {
    /// The connection stands; `wanted` says whether its owner took it.
    Connected { wanted: bool },
    WriteProgress,
    WriteDrained,
    /// Bytes arrived; where the buffers could not take them, the error says why.
    Data { refused: Option<Error> },
    PeerClosed,
    Failed(NativeFailure),
    DeadlineExpired,
}

/// What a [`TcpEventKind`] says.
pub enum TcpEventKindView {
    Connected { wanted: bool },
    WriteProgress,
    WriteDrained,
    Data { refused: Option<ErrorView> },
    PeerClosed,
    Failed(NativeFailureView),
    DeadlineExpired,
}

impl View for TcpEventKind {
    type V = TcpEventKindView;

    open spec fn view(&self) -> TcpEventKindView {
        match self {
            TcpEventKind::Connected { wanted } => TcpEventKindView::Connected { wanted: *wanted },
            TcpEventKind::WriteProgress => TcpEventKindView::WriteProgress,
            TcpEventKind::WriteDrained => TcpEventKindView::WriteDrained,
            TcpEventKind::Data { refused } => TcpEventKindView::Data {
                refused: crate::exchange::error_view(*refused),
            },
            TcpEventKind::PeerClosed => TcpEventKindView::PeerClosed,
            TcpEventKind::Failed(failure) => TcpEventKindView::Failed(failure@),
            TcpEventKind::DeadlineExpired => TcpEventKindView::DeadlineExpired,
        }
    }
}

/// Something that happened on a connection, and how its buffers stand afterwards.
#[derive(Debug)]
pub struct TcpEvent {
    pub report: TcpReport,
    pub kind: TcpEventKind,
}

/// What a [`TcpEvent`] says.
pub struct TcpEventView {
    pub report: TcpReport,
    pub kind: TcpEventKindView,
}

impl View for TcpEvent {
    type V = TcpEventView;

    open spec fn view(&self) -> TcpEventView {
        TcpEventView { report: self.report, kind: self.kind@ }
    }
}

/// The error of a connection on which nothing happened for too long.
pub open spec fn inactivity_error(direction: StandaloneInactivity) -> ErrorView {
    timeout_error(
        TimeoutKind::Inactivity,
        match direction {
            StandaloneInactivity::Read => "the standalone TCP read inactivity timeout expired"@,
            StandaloneInactivity::Write => "the standalone TCP write inactivity timeout expired"@,
        },
    )
}

/// The deadline of a connection is set, unless the connection is known to have failed.
pub open spec fn timed(engine: TcpView, slot: u64, tcp: StandaloneTcp, armed: bool) -> TcpView {
    if armed {
        asked(engine, TcpEffectView::SetDeadline { slot, deadline: tcp_deadline(tcp) })
    } else {
        engine
    }
}

/// What an event does to a connection that is being made, once it was taken out.
pub open spec fn attempt_event(
    engine: TcpView,
    attempt: AttemptView,
    event: TcpEventView,
    now: u64,
) -> TcpView {
    let slot = event.report.slot;
    let id = attempt.purpose.request_id;
    match event.kind {
        TcpEventKindView::Connected { wanted } => if wanted {
            let tcp = fresh_tcp(
                id,
                attempt.purpose.read_inactivity_timeout,
                attempt.purpose.write_inactivity_timeout,
                now,
            );
            timed(
                asked(
                    TcpView { live: engine.live.push((slot, tcp)), ..engine },
                    TcpEffectView::SetReadAllowance {
                        slot,
                        allowance: event.report.read_allowance,
                    },
                ),
                slot,
                tcp,
                true,
            )
        } else {
            asked(engine, TcpEffectView::Close { slot })
        },
        TcpEventKindView::Failed(failure) => if failure.kind is Connect
            && attempt.remaining.len() > 0 {
            attempt_started(engine, attempt, now)
        } else {
            failed(engine, id, transport_failure(failure))
        },
        TcpEventKindView::DeadlineExpired => asked(
            failed(engine, id, standalone_connect_expired()),
            TcpEffectView::Close { slot },
        ),
        _ => TcpView { pending: engine.pending.push((slot, attempt)), ..engine },
    }
}

/// What an event does to a live connection, once it was taken out.
pub open spec fn live_event(
    engine: TcpView,
    tcp: StandaloneTcp,
    event: TcpEventView,
    armed: bool,
    now: u64,
) -> TcpView {
    let report = event.report;
    let slot = report.slot;
    match event.kind {
        TcpEventKindView::Connected { .. } => TcpView {
            live: engine.live.push((slot, tcp)),
            ..engine
        },
        TcpEventKindView::WriteProgress | TcpEventKindView::WriteDrained => {
            let next = write_progressed(tcp, report.send_occupancy, now);
            timed(TcpView { live: engine.live.push((slot, next)), ..engine }, slot, next, armed)
        },
        TcpEventKindView::Data { refused } => {
            let read = read_progressed(tcp, now);
            match refused {
                Some(error) => failed(
                    TcpView { live: engine.live.push((slot, read)), ..engine },
                    tcp.request_id,
                    error,
                ),
                None => {
                    let next = pressure_synced(
                        read,
                        report.read_allowance,
                        report.send_occupancy,
                        now,
                    );
                    timed(
                        TcpView { live: engine.live.push((slot, next)), ..engine },
                        slot,
                        next,
                        armed,
                    )
                },
            }
        },
        TcpEventKindView::PeerClosed => {
            let next = read_ended(tcp);
            timed(TcpView { live: engine.live.push((slot, next)), ..engine }, slot, next, armed)
        },
        TcpEventKindView::Failed(failure) => if failure.connection_reset {
            asked(engine, TcpEffectView::Reset { id: tcp.request_id })
        } else {
            failed(engine, tcp.request_id, transport_failure(failure))
        },
        TcpEventKindView::DeadlineExpired => match tcp_expired(tcp, now) {
            Some(direction) => asked(
                failed(engine, tcp.request_id, inactivity_error(direction)),
                TcpEffectView::Close { slot },
            ),
            None => timed(
                TcpView { live: engine.live.push((slot, tcp)), ..engine },
                slot,
                tcp,
                true,
            ),
        },
    }
}

/// What an event does. A connection that fails in the same batch is gone already: it is neither
/// taken into use nor given another deadline, and its deadline counts no more.
pub open spec fn tcp_event_handled(
    engine: TcpView,
    event: TcpEventView,
    fails_in_batch: bool,
    now: u64,
) -> TcpView {
    let slot = event.report.slot;
    if fails_in_batch && (event.kind is Connected || event.kind is DeadlineExpired) {
        engine
    } else if holds(engine.pending, slot) {
        attempt_event(
            TcpView { pending: without_id(engine.pending, slot), ..engine },
            found(engine.pending, slot),
            event,
            now,
        )
    } else if holds(engine.live, slot) {
        live_event(
            TcpView { live: without_id(engine.live, slot), ..engine },
            found(engine.live, slot),
            event,
            !fails_in_batch,
            now,
        )
    } else {
        engine
    }
}

/// Whether a connection fails, according to some events.
pub open spec fn tcp_fails(events: Seq<TcpEventView>, slot: u64) -> bool {
    exists|i: int|
        0 <= i < events.len() && (#[trigger] events[i]).kind is Failed && events[i].report.slot
            == slot
}

/// What the first events of a batch do.
pub open spec fn tcp_batch(engine: TcpView, events: Seq<TcpEventView>, count: nat, now: u64) -> TcpView
    decreases count,
{
    if count == 0 {
        engine
    } else {
        let event = events[count - 1];
        tcp_event_handled(
            tcp_batch(engine, events, (count - 1) as nat, now),
            event,
            tcp_fails(events, event.report.slot),
            now,
        )
    }
}

/// What a batch of events says.
pub open spec fn tcp_event_views(events: Seq<TcpEvent>) -> Seq<TcpEventView> {
    events.map_values(|event: TcpEvent| event@)
}

/// One more look at a live connection: it is closed once its owner let go of it; otherwise both
/// directions follow the buffers, and once everything was written that ever will be, the peer is
/// told.
pub open spec fn tcp_resumed(engine: TcpView, report: TcpReport, now: u64) -> TcpView {
    let slot = report.slot;
    if !holds(engine.live, slot) {
        engine
    } else {
        let taken = TcpView { live: without_id(engine.live, slot), ..engine };
        if report.released {
            asked(taken, TcpEffectView::Close { slot })
        } else {
            let next = pressure_synced(
                found(engine.live, slot),
                report.read_allowance,
                report.send_occupancy,
                now,
            );
            let allowed = asked(
                TcpView { live: taken.live.push((slot, next)), ..taken },
                TcpEffectView::SetReadAllowance { slot, allowance: report.read_allowance },
            );
            let shut = if report.finish_requested && !report.write_finished
                && report.send_occupancy == 0 && report.outbound_empty {
                asked(allowed, TcpEffectView::ShutdownWrite { slot })
            } else {
                allowed
            };
            timed(shut, slot, next, true)
        }
    }
}

/// What a look at the first of some connections does.
pub open spec fn tcp_all_resumed(
    engine: TcpView,
    reports: Seq<TcpReport>,
    count: nat,
    now: u64,
) -> TcpView
    decreases count,
{
    if count == 0 {
        engine
    } else {
        tcp_resumed(
            tcp_all_resumed(engine, reports, (count - 1) as nat, now),
            reports[count - 1],
            now,
        )
    }
}

/// The numbers of the wishes whose host is being looked up.
pub open spec fn lookup_owners(lookups: Seq<(u64, StandaloneResolve)>) -> Seq<u64> {
    lookups.map_values(|entry: (u64, StandaloneResolve)| entry.1.purpose.request_id)
}

/// The numbers of the wishes whose connection is being made.
pub open spec fn attempt_owners(pending: Seq<(u64, AttemptView)>) -> Seq<u64> {
    pending.map_values(|entry: (u64, AttemptView)| entry.1.purpose.request_id)
}

/// The numbers of the wishes whose connection is live.
pub open spec fn live_owners(live: Seq<(u64, StandaloneTcp)>) -> Seq<u64> {
    live.map_values(|entry: (u64, StandaloneTcp)| entry.1.request_id)
}

/// Some connection, however far it got, goes under a number.
pub open spec fn tcp_owns(engine: TcpView, id: u64) -> bool {
    ||| first_number(lookup_owners(engine.lookups), id) < engine.lookups.len()
    ||| first_number(attempt_owners(engine.pending), id) < engine.pending.len()
    ||| first_number(live_owners(engine.live), id) < engine.live.len()
}

/// A connection is given up, however far it got.
pub open spec fn tcp_cancelled(engine: TcpView, id: u64) -> TcpView {
    let looked = first_number(lookup_owners(engine.lookups), id);
    let tried = first_number(attempt_owners(engine.pending), id);
    let lives = first_number(live_owners(engine.live), id);
    if looked < engine.lookups.len() {
        asked(
            TcpView { lookups: engine.lookups.remove(looked), ..engine },
            TcpEffectView::CancelLocate { key: engine.lookups[looked].0 },
        )
    } else if tried < engine.pending.len() {
        asked(
            TcpView { pending: engine.pending.remove(tried), ..engine },
            TcpEffectView::Close { slot: engine.pending[tried].0 },
        )
    } else if lives < engine.live.len() {
        asked(
            asked(
                TcpView { live: engine.live.remove(lives), ..engine },
                TcpEffectView::Cancelled { id },
            ),
            TcpEffectView::Close { slot: engine.live[lives].0 },
        )
    } else {
        engine
    }
}

fn inactivity_failure(direction: StandaloneInactivity) -> (result: Error)
    ensures
        result@ == inactivity_error(direction),
{
    match direction {
        StandaloneInactivity::Read => Error::timeout(
            TimeoutKind::Inactivity,
            "the standalone TCP read inactivity timeout expired",
        ),
        StandaloneInactivity::Write => Error::timeout(
            TimeoutKind::Inactivity,
            "the standalone TCP write inactivity timeout expired",
        ),
    }
}

impl TcpEngine {
    fn set_live(&mut self, slot: u64, tcp: StandaloneTcp)
        requires
            old(self).wf(),
            slot < old(self)@.next_slot,
            !holds(old(self)@.live, slot),
            !holds(old(self)@.pending, slot),
            tcp_ok(tcp),
        ensures
            final(self).wf(),
            final(self)@ == (TcpView { live: old(self)@.live.push((slot, tcp)), ..old(self)@ }),
    {
        proof {
            lemma_live_added(self@, slot, tcp);
        }
        self.live.insert(slot, tcp);
    }

    fn arm(&mut self, slot: u64, tcp: StandaloneTcp, armed: bool)
        ensures
            final(self)@ == timed(old(self)@, slot, tcp, armed),
            old(self).wf() ==> final(self).wf(),
    {
        if armed {
            self.ask(TcpEffect::SetDeadline { slot, deadline: tcp.next_deadline() });
        }
    }

    fn take_attempt_event(&mut self, attempt: StandalonePending, event: TcpEvent, now: u64)
        requires
            old(self).wf(),
            event.report.slot < old(self)@.next_slot,
            !holds(old(self)@.live, event.report.slot),
            !holds(old(self)@.pending, event.report.slot),
        ensures
            final(self).wf(),
            final(self)@ == attempt_event(old(self)@, attempt@, event@, now),
    {
        let slot = event.report.slot;
        let id = attempt.purpose.request_id;
        match event.kind {
            TcpEventKind::Connected { wanted } => {
                if wanted {
                    let tcp = StandaloneTcp::new(
                        id,
                        attempt.purpose.read_inactivity_timeout,
                        attempt.purpose.write_inactivity_timeout,
                        now,
                    );
                    self.set_live(slot, tcp);
                    self.ask(
                        TcpEffect::SetReadAllowance {
                            slot,
                            allowance: event.report.read_allowance,
                        },
                    );
                    self.arm(slot, tcp, true);
                } else {
                    self.ask(TcpEffect::Close { slot });
                }
            },
            TcpEventKind::Failed(failure) => {
                let connecting = match failure.kind {
                    NativeFailureKind::Connect => true,
                    _ => false,
                };
                if connecting && attempt.remaining.len() > 0 {
                    self.start_standalone_attempt(attempt, now);
                } else {
                    self.fail(id, native_transport_error(&failure));
                }
            },
            TcpEventKind::DeadlineExpired => {
                self.fail(id, standalone_connect_timeout());
                self.ask(TcpEffect::Close { slot });
            },
            _ => {
                proof {
                    crate::tcp::lemma_pending_added(self@, slot, attempt@);
                }
                self.pending.insert(slot, attempt);
            },
        }
    }

    fn take_live_event(&mut self, tcp: StandaloneTcp, event: TcpEvent, armed: bool, now: u64)
        requires
            old(self).wf(),
            tcp_ok(tcp),
            event.report.slot < old(self)@.next_slot,
            !holds(old(self)@.live, event.report.slot),
            !holds(old(self)@.pending, event.report.slot),
        ensures
            final(self).wf(),
            final(self)@ == live_event(old(self)@, tcp, event@, armed, now),
    {
        let report = event.report;
        let slot = report.slot;
        let mut tcp = tcp;
        match event.kind {
            TcpEventKind::Connected { .. } => {
                self.set_live(slot, tcp);
            },
            TcpEventKind::WriteProgress => {
                tcp.note_write_progress(report.send_occupancy, now);
                self.set_live(slot, tcp);
                self.arm(slot, tcp, armed);
            },
            TcpEventKind::WriteDrained => {
                tcp.note_write_progress(report.send_occupancy, now);
                self.set_live(slot, tcp);
                self.arm(slot, tcp, armed);
            },
            TcpEventKind::Data { refused } => {
                tcp.note_read_progress(now);
                match refused {
                    Some(error) => {
                        self.set_live(slot, tcp);
                        self.fail(tcp.request_id, error);
                    },
                    None => {
                        tcp.sync_pressure(report.read_allowance, report.send_occupancy, now);
                        self.set_live(slot, tcp);
                        self.arm(slot, tcp, armed);
                    },
                }
            },
            TcpEventKind::PeerClosed => {
                tcp.note_peer_closed();
                self.set_live(slot, tcp);
                self.arm(slot, tcp, armed);
            },
            TcpEventKind::Failed(failure) => {
                if failure.connection_reset {
                    self.ask(TcpEffect::Reset { id: tcp.request_id });
                } else {
                    self.fail(tcp.request_id, native_transport_error(&failure));
                }
            },
            TcpEventKind::DeadlineExpired => match tcp.expired(now) {
                Some(direction) => {
                    self.fail(tcp.request_id, inactivity_failure(direction));
                    self.ask(TcpEffect::Close { slot });
                },
                None => {
                    self.set_live(slot, tcp);
                    self.arm(slot, tcp, true);
                },
            },
        }
    }

    /// Takes one event; `fails_in_batch` says whether the connection fails in the same batch.
    pub fn handle_standalone_event(&mut self, event: TcpEvent, fails_in_batch: bool, now: u64)
        requires
            old(self).wf(),
        ensures
            final(self).wf(),
            final(self)@ == tcp_event_handled(old(self)@, event@, fails_in_batch, now),
    {
        let slot = event.report.slot;
        if fails_in_batch {
            match &event.kind {
                TcpEventKind::Connected { .. } => {
                    return;
                },
                TcpEventKind::DeadlineExpired => {
                    return;
                },
                _ => {},
            }
        }
        proof {
            lemma_pending_taken(self@, slot);
            lemma_live_taken(self@, slot);
        }
        if self.pending.contains(slot) {
            if let Some(attempt) = self.pending.remove(slot) {
                self.take_attempt_event(attempt, event, now);
            }
        } else if let Some(tcp) = self.live.remove(slot) {
            self.take_live_event(tcp, event, !fails_in_batch, now);
        }
    }

    /// Takes a batch of events, in order.
    pub fn process_events(&mut self, events: VecDeque<TcpEvent>, now: u64)
        requires
            old(self).wf(),
        ensures
            final(self).wf(),
            final(self)@ == tcp_batch(
                old(self)@,
                tcp_event_views(events@),
                events@.len(),
                now,
            ),
    {
        let ghost views = tcp_event_views(events@);
        let failing = failing_slots(&events);
        let mut left = events;
        while left.len() > 0
            invariant
                self.wf(),
                left@.len() <= views.len(),
                forall|i: int|
                    0 <= i < left@.len() ==> (#[trigger] left@[i])@ == views[views.len()
                        - left@.len() + i],
                forall|slot: u64| #[trigger] failing@.contains(slot) == tcp_fails(views, slot),
                self@ == tcp_batch(old(self)@, views, (views.len() - left@.len()) as nat, now),
            decreases left@.len(),
        {
            if let Some(event) = left.pop_front() {
                let fails = crate::events::is_among(&failing, event.report.slot);
                self.handle_standalone_event(event, fails, now);
            }
        }
    }

    fn resume_one(&mut self, report: TcpReport, now: u64)
        requires
            old(self).wf(),
        ensures
            final(self).wf(),
            final(self)@ == tcp_resumed(old(self)@, report, now),
    {
        let slot = report.slot;
        proof {
            lemma_live_taken(self@, slot);
        }
        let tcp = match self.live.remove(slot) {
            Some(tcp) => tcp,
            None => {
                return;
            },
        };
        if report.released {
            self.ask(TcpEffect::Close { slot });
            return;
        }
        let mut tcp = tcp;
        tcp.sync_pressure(report.read_allowance, report.send_occupancy, now);
        self.set_live(slot, tcp);
        self.ask(TcpEffect::SetReadAllowance { slot, allowance: report.read_allowance });
        if report.finish_requested && !report.write_finished && report.send_occupancy == 0
            && report.outbound_empty {
            self.ask(TcpEffect::ShutdownWrite { slot });
        }
        self.arm(slot, tcp, true);
    }

    /// Looks at live connections once more.
    pub fn resume_standalone_tcp(&mut self, reports: &[TcpReport], now: u64)
        requires
            old(self).wf(),
        ensures
            final(self).wf(),
            final(self)@ == tcp_all_resumed(old(self)@, reports@, reports@.len(), now),
    {
        let mut i: usize = 0;
        while i < reports.len()
            invariant
                self.wf(),
                i <= reports@.len(),
                self@ == tcp_all_resumed(old(self)@, reports@, i as nat, now),
            decreases reports@.len() - i,
        {
            self.resume_one(reports[i], now);
            i += 1;
        }
    }

    fn find_lookup(&self, id: u64) -> (result: usize)
        ensures
            result == first_number(lookup_owners(self@.lookups), id),
            result <= self@.lookups.len(),
    {
        let mut at: usize = 0;
        let ghost owners = lookup_owners(self@.lookups);
        while at < self.lookups.len()
            invariant
                at <= self@.lookups.len(),
                owners == lookup_owners(self@.lookups),
                forall|i: int| 0 <= i < at ==> #[trigger] owners[i] != id,
            decreases self@.lookups.len() - at,
        {
            if self.lookups.item_at(at).purpose.request_id == id {
                proof {
                    crate::control::lemma_first_number_is(owners, id, at as int);
                }
                return at;
            }
            at += 1;
        }
        proof {
            crate::control::lemma_first_number_is(owners, id, at as int);
        }
        at
    }

    fn find_attempt(&self, id: u64) -> (result: usize)
        ensures
            result == first_number(attempt_owners(self@.pending), id),
            result <= self@.pending.len(),
    {
        let mut at: usize = 0;
        let ghost owners = attempt_owners(self@.pending);
        while at < self.pending.len()
            invariant
                at <= self@.pending.len(),
                owners == attempt_owners(self@.pending),
                forall|i: int| 0 <= i < at ==> #[trigger] owners[i] != id,
            decreases self@.pending.len() - at,
        {
            if self.pending.item_at(at).purpose.request_id == id {
                proof {
                    crate::control::lemma_first_number_is(owners, id, at as int);
                }
                return at;
            }
            at += 1;
        }
        proof {
            crate::control::lemma_first_number_is(owners, id, at as int);
        }
        at
    }

    fn find_live(&self, id: u64) -> (result: usize)
        ensures
            result == first_number(live_owners(self@.live), id),
            result <= self@.live.len(),
    {
        let mut at: usize = 0;
        let ghost owners = live_owners(self@.live);
        while at < self.live.len()
            invariant
                at <= self@.live.len(),
                owners == live_owners(self@.live),
                forall|i: int| 0 <= i < at ==> #[trigger] owners[i] != id,
            decreases self@.live.len() - at,
        {
            if self.live.item_at(at).request_id == id {
                proof {
                    crate::control::lemma_first_number_is(owners, id, at as int);
                }
                return at;
            }
            at += 1;
        }
        proof {
            crate::control::lemma_first_number_is(owners, id, at as int);
        }
        at
    }

    /// Gives up a connection, however far it got. The result says whether there was one.
    pub fn cancel(&mut self, id: u64) -> (result: bool)
        requires
            old(self).wf(),
        ensures
            final(self).wf(),
            final(self)@ == tcp_cancelled(old(self)@, id),
            result == tcp_owns(old(self)@, id),
    {
        let looked = self.find_lookup(id);
        if looked < self.lookups.len() {
            let key = self.lookups.id_at(looked);
            proof {
                lemma_position_at(self@.lookups, looked as int);
                lemma_lookup_taken(self@, key);
            }
            self.lookups.remove(key);
            self.ask(TcpEffect::CancelLocate { key });
            return true;
        }
        let tried = self.find_attempt(id);
        if tried < self.pending.len() {
            let slot = self.pending.id_at(tried);
            proof {
                lemma_position_at(self@.pending, tried as int);
                lemma_pending_taken(self@, slot);
            }
            self.pending.remove(slot);
            self.ask(TcpEffect::Close { slot });
            return true;
        }
        let lives = self.find_live(id);
        if lives < self.live.len() {
            let slot = self.live.id_at(lives);
            proof {
                lemma_position_at(self@.live, lives as int);
                lemma_live_taken(self@, slot);
            }
            self.live.remove(slot);
            self.ask(TcpEffect::Cancelled { id });
            self.ask(TcpEffect::Close { slot });
            return true;
        }
        false
    }

    /// Gives up everything. Numbers that were given out are not given out again.
    pub fn shutdown(&mut self)
        requires
            old(self).wf(),
        ensures
            final(self).wf(),
            final(self)@ == (TcpView {
                lookups: Seq::empty(),
                pending: Seq::empty(),
                live: Seq::empty(),
                effects: Seq::empty(),
                ..old(self)@
            }),
    {
        self.lookups.clear();
        self.pending.clear();
        self.live.clear();
        self.effects.clear();
    }

    /// Reports whether there is anything to watch.
    pub fn wants_poll_without_requests(&self) -> (result: bool)
        ensures
            result == (self@.lookups.len() != 0 || self@.pending.len() != 0 || self@.live.len()
                != 0),
    {
        self.lookups.len() != 0 || self.pending.len() != 0 || self.live.len() != 0
    }

    /// Takes what the socket layer is to do.
    pub fn take_effects(&mut self) -> (result: Queue<TcpEffect>)
        requires
            old(self).wf(),
        ensures
            final(self).wf(),
            result@ == old(self)@.effects,
            final(self)@ == (TcpView { effects: Seq::empty(), ..old(self)@ }),
    {
        let mut effects = Queue::new();
        std::mem::swap(&mut effects, &mut self.effects);
        effects
    }
}

/// The connections that fail, according to some events.
fn failing_slots(events: &VecDeque<TcpEvent>) -> (result: Vec<u64>)
    ensures
        forall|slot: u64|
            #[trigger] result@.contains(slot) == tcp_fails(tcp_event_views(events@), slot),
{
    let ghost views = tcp_event_views(events@);
    let mut failing: Vec<u64> = Vec::new();
    let mut i: usize = 0;
    while i < events.len()
        invariant
            i <= events@.len(),
            views == tcp_event_views(events@),
            forall|j: int|
                0 <= j < i && (#[trigger] views[j]).kind is Failed ==> failing@.contains(
                    views[j].report.slot,
                ),
            forall|slot: u64| #[trigger] failing@.contains(slot) ==> tcp_fails(views, slot),
        decreases events@.len() - i,
    {
        let ghost before = failing@;
        match &events[i].kind {
            TcpEventKind::Failed(_) => {
                failing.push(events[i].report.slot);
                proof {
                    let slot = views[i as int].report.slot;
                    assert(views[i as int].kind is Failed);
                    assert(tcp_fails(views, slot));
                    crate::events::lemma_contains_pushed(before, slot);
                    assert(failing@ =~= before.push(slot));
                }
            },
            _ => {},
        }
        i += 1;
    }
    proof {
        assert forall|slot: u64| #[trigger] failing@.contains(slot) == tcp_fails(
            views,
            slot,
        ) by {
            if tcp_fails(views, slot) {
                let at = choose|at: int|
                    0 <= at < views.len() && (#[trigger] views[at]).kind is Failed
                        && views[at].report.slot == slot;
                assert(failing@.contains(views[at].report.slot));
            }
        }
    }
    failing
}

/// Whether something is asked of a connection other than to close it.
pub open spec fn tcp_touches(effect: TcpEffectView, slot: u64) -> bool {
    match effect {
        TcpEffectView::Connect { slot: other, .. } => slot == other,
        TcpEffectView::SetDeadline { slot: other, .. } => slot == other,
        TcpEffectView::SetReadAllowance { slot: other, .. } => slot == other,
        TcpEffectView::ShutdownWrite { slot: other } => slot == other,
        _ => false,
    }
}

/// Nothing is asked of a connection other than to close it.
pub open spec fn tcp_left_alone(engine: TcpView, slot: u64) -> bool {
    forall|i: int|
        0 <= i < engine.effects.len() ==> !tcp_touches(#[trigger] engine.effects[i], slot)
}

proof fn lemma_event_leaves_alone(
    engine: TcpView,
    event: TcpEventView,
    fails_in_batch: bool,
    now: u64,
    slot: u64,
)
    requires
        tcp_left_alone(engine, slot),
        slot < engine.next_slot,
        event.report.slot == slot ==> fails_in_batch,
    ensures
        tcp_left_alone(tcp_event_handled(engine, event, fails_in_batch, now), slot),
        slot < tcp_event_handled(engine, event, fails_in_batch, now).next_slot,
{
    reveal(attempt_started);
}

/// The end of a connection comes first: while a batch is taken in which a connection fails, nothing
/// more is asked of that connection, however early in the batch it made progress.
pub proof fn lemma_tcp_failure_dominates_the_batch(
    engine: TcpView,
    events: Seq<TcpEventView>,
    count: nat,
    now: u64,
    slot: u64,
)
    requires
        count <= events.len(),
        tcp_fails(events, slot),
        tcp_left_alone(engine, slot),
        slot < engine.next_slot,
    ensures
        tcp_left_alone(tcp_batch(engine, events, count, now), slot),
        slot < tcp_batch(engine, events, count, now).next_slot,
    decreases count,
{
    if count > 0 {
        lemma_tcp_failure_dominates_the_batch(engine, events, (count - 1) as nat, now, slot);
        let event = events[count - 1];
        lemma_event_leaves_alone(
            tcp_batch(engine, events, (count - 1) as nat, now),
            event,
            tcp_fails(events, event.report.slot),
            now,
            slot,
        );
    }
}

/// A connection attempt moves on: where an address refuses and another is left, the owner is not told
/// of a failure, and the next address is tried under the same deadline.
pub proof fn lemma_attempt_moves_on(
    engine: TcpView,
    event: TcpEventView,
    fails_in_batch: bool,
    now: u64,
)
    requires
        tcp_engine_ok(engine),
        engine.next_slot < u64::MAX,
        holds(engine.pending, event.report.slot),
        event.kind matches TcpEventKindView::Failed(failure) && failure.kind is Connect,
        found(engine.pending, event.report.slot).remaining.len() > 0,
        !crate::deadline::is_past(
            found(engine.pending, event.report.slot).connect_deadline,
            now,
        ),
    ensures
        ({
            let attempt = found(engine.pending, event.report.slot);
            let next = tcp_event_handled(engine, event, fails_in_batch, now);
            &&& next.effects == engine.effects.push(
                TcpEffectView::Connect {
                    id: attempt.purpose.request_id,
                    slot: engine.next_slot,
                    endpoint: attempt.remaining[0],
                    deadline: attempt.connect_deadline,
                    send_window: attempt.purpose.send_window,
                    receive_window: attempt.purpose.receive_window,
                },
            )
            &&& holds(next.pending, engine.next_slot)
            &&& found(next.pending, engine.next_slot).remaining == attempt.remaining.remove(0)
        }),
{
    reveal(attempt_started);
    let slot = event.report.slot;
    let attempt = found(engine.pending, slot);
    let left = without_id(engine.pending, slot);
    lemma_pending_taken(engine, slot);
    lemma_position(left, engine.next_slot);
    crate::table::lemma_added(
        left,
        engine.next_slot,
        AttemptView { remaining: attempt.remaining.remove(0), ..attempt },
        engine.next_slot,
    );
}

} // verus!
