//! How the engines that share a socket layer and a resolver take turns: what is done before events
//! are waited for, and what is done with the events.

use crate::backend::{BackendView, NativeHttpBackend};
use crate::control::{cancelled, shut_down};
use crate::dispatch::dispatched;
use crate::events::{batch_processed, event_views, idle_closed, streams_resumed};
use crate::lookup::{located, lookups_expired, LookupOutcome, LookupView};
use crate::pool::grown;
use crate::resolver::{
    resolve_answered, resolve_cancelled, resolves_expired, LookupEngine, LookupsView,
    ResolutionView, ResolveCompletion,
};
use crate::step::{EventView, NativeEvent, SocketReport};
use crate::tcp::{
    tcp_located, tcp_lookups_expired, TcpEngine, TcpLookup, TcpLookupView, TcpView,
};
use crate::tcp_events::{
    tcp_all_resumed, tcp_batch, tcp_cancelled, tcp_event_views, tcp_owns, TcpEvent, TcpEventView,
    TcpReport,
};
use std::collections::VecDeque;
use vstd::prelude::*;

verus! {

/// The end of a lookup, for the engine that asked for it.
#[derive(Debug)]
pub enum ResolverResult {
    Http { key: u64, outcome: LookupOutcome },
    Tcp { key: u64, lookup: TcpLookup },
    Public { key: u64, completion: ResolveCompletion },
}

/// What a [`ResolverResult`] says.
pub enum ResolverResultView {
    Http { key: u64, outcome: LookupView },
    Tcp { key: u64, lookup: TcpLookupView },
    Public { key: u64, completion: ResolutionView },
}

impl View for ResolverResult {
    type V = ResolverResultView;

    open spec fn view(&self) -> ResolverResultView {
        match self {
            ResolverResult::Http { key, outcome } => ResolverResultView::Http {
                key: *key,
                outcome: outcome@,
            },
            ResolverResult::Tcp { key, lookup } => ResolverResultView::Tcp {
                key: *key,
                lookup: lookup@,
            },
            ResolverResult::Public { key, completion } => ResolverResultView::Public {
                key: *key,
                completion: completion@,
            },
        }
    }
}

/// What some lookups ended with.
pub open spec fn result_views(results: Seq<ResolverResult>) -> Seq<ResolverResultView> {
    results.map_values(|result: ResolverResult| result@)
}

/// The engines that share one socket layer and one resolver.
pub struct NativeEngines {
    pub http: NativeHttpBackend,
    pub tcp: TcpEngine,
    pub lookups: LookupEngine,
}

/// What [`NativeEngines`] hold.
#[verifier::ext_equal]
pub struct EnginesView {
    pub http: BackendView,
    pub tcp: TcpView,
    pub lookups: LookupsView,
}

impl View for NativeEngines {
    type V = EnginesView;

    open spec fn view(&self) -> EnginesView {
        EnginesView { http: self.http@, tcp: self.tcp@, lookups: self.lookups@ }
    }
}

/// The end of a lookup reaches the engine that asked for it.
pub open spec fn result_taken(
    engines: EnginesView,
    result: ResolverResultView,
    now: u64,
) -> EnginesView {
    match result {
        ResolverResultView::Http { key, outcome } => EnginesView {
            http: located(engines.http, key, outcome, now),
            ..engines
        },
        ResolverResultView::Tcp { key, lookup } => EnginesView {
            tcp: tcp_located(engines.tcp, key, lookup, now),
            ..engines
        },
        ResolverResultView::Public { key, completion } => EnginesView {
            lookups: resolve_answered(engines.lookups, key, completion, now),
            ..engines
        },
    }
}

/// What the ends of the first of some lookups do, in order.
pub open spec fn results_taken(
    engines: EnginesView,
    results: Seq<ResolverResultView>,
    count: nat,
    now: u64,
) -> EnginesView
    decreases count,
{
    if count == 0 {
        engines
    } else {
        result_taken(
            results_taken(engines, results, (count - 1) as nat, now),
            results[count - 1],
            now,
        )
    }
}

/// Lookups that take too long end first; then come the ends of others. A lookup for a request is
/// looked at by its deadline only afterwards.
pub open spec fn dns_drained(
    engines: EnginesView,
    results: Seq<ResolverResultView>,
    now: u64,
) -> EnginesView {
    results_taken(
        EnginesView {
            tcp: tcp_lookups_expired(engines.tcp, now, 0),
            lookups: resolves_expired(engines.lookups, now, 0),
            ..engines
        },
        results,
        results.len(),
        now,
    )
}

/// Lookups that take too long end, and requests that waited start where there is room.
pub open spec fn lookups_settled(http: BackendView, now: u64) -> BackendView {
    dispatched(lookups_expired(http, now, 0), now)
}

/// What is done before events are waited for.
pub open spec fn turn_begun(
    engines: EnginesView,
    reports: Seq<SocketReport>,
    tcp_reports: Seq<TcpReport>,
    results: Seq<ResolverResultView>,
    now: u64,
) -> EnginesView {
    let drained = dns_drained(
        EnginesView {
            http: dispatched(idle_closed(engines.http, now), now),
            tcp: tcp_all_resumed(engines.tcp, tcp_reports, tcp_reports.len(), now),
            ..engines
        },
        results,
        now,
    );
    EnginesView {
        http: streams_resumed(lookups_settled(drained.http, now), reports, reports.len(), now),
        ..drained
    }
}

/// What is done with the events that were waited for. `tcp_reports` says how connections stand
/// after them.
pub open spec fn turn_ended(
    engines: EnginesView,
    events: Seq<EventView>,
    tcp_events: Seq<TcpEventView>,
    tcp_reports: Seq<TcpReport>,
    results: Seq<ResolverResultView>,
    now: u64,
) -> EnginesView {
    let drained = dns_drained(
        EnginesView {
            http: batch_processed(engines.http, events, events.len(), now),
            tcp: tcp_all_resumed(
                tcp_batch(engines.tcp, tcp_events, tcp_events.len(), now),
                tcp_reports,
                tcp_reports.len(),
                now,
            ),
            ..engines
        },
        results,
        now,
    );
    EnginesView { http: lookups_settled(drained.http, now), ..drained }
}

/// Whatever goes under a number is given up. A connection of its own is all that goes under it.
pub open spec fn engines_cancelled(engines: EnginesView, id: u64) -> EnginesView {
    if tcp_owns(engines.tcp, id) {
        EnginesView { tcp: tcp_cancelled(engines.tcp, id), ..engines }
    } else {
        EnginesView {
            http: cancelled(engines.http, id),
            lookups: resolve_cancelled(engines.lookups, id),
            ..engines
        }
    }
}

impl NativeEngines {
    /// Each engine is in order.
    pub open spec fn wf(&self) -> bool {
        self.http.wf() && self.tcp.wf() && self.lookups.wf()
    }

    /// Hands the ends of lookups to the engines that asked for them, in order.
    pub fn process_resolver_results(&mut self, results: VecDeque<ResolverResult>, now: u64)
        requires
            old(self).wf(),
        ensures
            final(self).wf(),
            final(self)@ == results_taken(
                old(self)@,
                result_views(results@),
                results@.len(),
                now,
            ),
    {
        let ghost views = result_views(results@);
        let mut left = results;
        while left.len() > 0
            invariant
                self.wf(),
                left@.len() <= views.len(),
                forall|i: int|
                    0 <= i < left@.len() ==> (#[trigger] left@[i])@ == views[views.len()
                        - left@.len() + i],
                self@ == results_taken(
                    old(self)@,
                    views,
                    (views.len() - left@.len()) as nat,
                    now,
                ),
            decreases left@.len(),
        {
            if let Some(result) = left.pop_front() {
                match result {
                    ResolverResult::Http { key, outcome } => {
                        self.http.finish_lookup(key, outcome, now);
                    },
                    ResolverResult::Tcp { key, lookup } => {
                        self.tcp.finish_standalone_resolve(key, lookup, now);
                    },
                    ResolverResult::Public { key, completion } => {
                        self.lookups.finish_lookup(key, completion, now);
                    },
                }
            }
        }
    }

    /// Ends the lookups that take too long, and takes the ends of others.
    pub fn drain_dns(&mut self, results: VecDeque<ResolverResult>, now: u64)
        requires
            old(self).wf(),
        ensures
            final(self).wf(),
            final(self)@ == dns_drained(old(self)@, result_views(results@), now),
    {
        self.lookups.expire_public_lookups(now);
        self.tcp.expire_standalone_resolves(now);
        self.process_resolver_results(results, now);
    }

    /// Does what is due before events are waited for. The reports say how connections stand, and
    /// `results` how lookups ended.
    pub fn begin_turn(
        &mut self,
        reports: &[SocketReport],
        tcp_reports: &[TcpReport],
        results: VecDeque<ResolverResult>,
        now: u64,
    )
        requires
            old(self).wf(),
        ensures
            final(self).wf(),
            final(self)@ == turn_begun(
                old(self)@,
                reports@,
                tcp_reports@,
                result_views(results@),
                now,
            ),
    {
        self.tcp.resume_standalone_tcp(tcp_reports, now);
        self.http.expire_idle(now);
        self.http.dispatch_waiting(now);
        self.drain_dns(results, now);
        self.http.expire_resolves(now);
        self.http.dispatch_waiting(now);
        self.http.resume_streams(reports, now);
    }

    /// How long events may be waited for: not at all once a request ended.
    pub fn poll_deadline(&self, deadline: u64, now: u64) -> (result: u64)
        ensures
            result == if self@.http.done.len() == 0 {
                deadline
            } else {
                now
            },
    {
        if self.http.done.len() == 0 {
            deadline
        } else {
            now
        }
    }

    /// Takes the events that were waited for, and the ends of lookups since the turn began.
    pub fn end_turn(
        &mut self,
        events: VecDeque<NativeEvent>,
        tcp_events: VecDeque<TcpEvent>,
        tcp_reports: &[TcpReport],
        results: VecDeque<ResolverResult>,
        now: u64,
    )
        requires
            old(self).wf(),
        ensures
            final(self).wf(),
            final(self)@ == turn_ended(
                old(self)@,
                event_views(events@),
                tcp_event_views(tcp_events@),
                tcp_reports@,
                result_views(results@),
                now,
            ),
    {
        self.http.process_events(events, now);
        self.tcp.process_events(tcp_events, now);
        self.tcp.resume_standalone_tcp(tcp_reports, now);
        self.drain_dns(results, now);
        self.http.expire_resolves(now);
        self.http.dispatch_waiting(now);
    }

    /// Gives up whatever goes under a number.
    pub fn cancel(&mut self, id: u64)
        requires
            old(self).wf(),
        ensures
            final(self).wf(),
            final(self)@ == engines_cancelled(old(self)@, id),
    {
        if self.tcp.cancel(id) {
            return;
        }
        self.http.cancel(id);
        self.lookups.cancel(id);
    }

    /// Gives up everything. Each HTTP connection that is open counts as closed, once.
    pub fn shutdown(&mut self)
        requires
            old(self).wf(),
        ensures
            final(self).wf(),
            final(self)@ == (EnginesView {
                http: shut_down(old(self)@.http),
                tcp: TcpView {
                    lookups: Seq::empty(),
                    pending: Seq::empty(),
                    live: Seq::empty(),
                    effects: Seq::empty(),
                    ..old(self)@.tcp
                },
                lookups: LookupsView {
                    lookups: Seq::empty(),
                    effects: Seq::empty(),
                    done: Seq::empty(),
                    ..old(self)@.lookups
                },
            }),
            final(self)@.http.pool.counts.closed == grown(
                old(self)@.http.pool.counts.closed,
                old(self)@.http.pool.leases.len(),
            ),
            old(self)@.http.pool.counts.opened < u64::MAX
                ==> final(self)@.http.pool.counts.closed == old(self)@.http.pool.counts.closed
                + old(self)@.http.pool.leases.len(),
            final(self)@.http.pool.leases.len() == 0,
            final(self)@.http.pool.idle.len() == 0,
            final(self)@.http.waiting.len() == 0,
    {
        self.http.shutdown();
        self.tcp.shutdown();
        self.lookups.shutdown();
    }

    /// Reports whether there is anything to watch though there are no requests.
    pub fn wants_poll_without_requests(&self) -> (result: bool)
        ensures
            result == (self@.http.pool.idle.len() != 0 || self@.lookups.lookups.len() != 0
                || self@.tcp.lookups.len() != 0 || self@.tcp.pending.len() != 0
                || self@.tcp.live.len() != 0),
    {
        self.http.wants_poll_without_requests() || self.lookups.wants_poll_without_requests()
            || self.tcp.wants_poll_without_requests()
    }
}

} // verus!
