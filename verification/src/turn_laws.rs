//! What holds of every turn: each answer reaches the engine that asked, and nothing that is late is
//! left.

use crate::backend::BackendView;
use crate::dispatch::{dispatched, waiting_expired};
use crate::dispatch_laws::{is_late, lemma_only_late_requests_leave_the_queue};
use crate::events::{
    batch_processed, event_processed, idle_closed, stream_resumed, streams_resumed,
};
use crate::lookup::{located, lookups_expired, LookupView};
use crate::pending::PendingView;
use crate::pool::pool_ok;
use crate::queue_laws::{is_part, lemma_dispatch_keeps_order};
use crate::resolver::{resolve_answered, resolves_expired, ResolutionView};
use crate::step::{EventView, SocketReport};
use crate::tcp::{tcp_located, tcp_lookups_expired, TcpLookupView, TcpView};
use crate::tcp_events::{
    tcp_all_resumed, tcp_batch, tcp_event_handled, tcp_resumed, TcpEventView, TcpReport,
};
use crate::turn::{
    result_taken, results_taken, turn_begun, turn_ended, EnginesView, ResolverResultView,
};
use vstd::prelude::*;

verus! {

/// The end of a lookup reaches the engine that asked for it, and no other.
pub proof fn lemma_answers_reach_their_engine(
    engines: EnginesView,
    key: u64,
    outcome: LookupView,
    lookup: TcpLookupView,
    completion: ResolutionView,
    now: u64,
)
    ensures
        result_taken(engines, ResolverResultView::Http { key, outcome }, now) == (EnginesView {
            http: located(engines.http, key, outcome, now),
            ..engines
        }),
        result_taken(engines, ResolverResultView::Tcp { key, lookup }, now) == (EnginesView {
            tcp: tcp_located(engines.tcp, key, lookup, now),
            ..engines
        }),
        result_taken(engines, ResolverResultView::Public { key, completion }, now) == (EnginesView {
            lookups: resolve_answered(engines.lookups, key, completion, now),
            ..engines
        }),
{
}

proof fn lemma_parts_are_among(part: Seq<PendingView>, all: Seq<PendingView>, i: int)
    requires
        is_part(part, all),
        0 <= i < part.len(),
    ensures
        all.contains(part[i]),
    decreases all.len(),
{
    if is_part(part, all.drop_last()) && all.len() > 0 {
        lemma_parts_are_among(part, all.drop_last(), i);
        let j = choose|j: int| 0 <= j < all.drop_last().len() && all.drop_last()[j] == part[i];
        assert(all[j] == part[i]);
    } else if all.len() > 0 {
        if i == part.len() - 1 {
            assert(all[all.len() - 1] == part[i]);
        } else {
            lemma_parts_are_among(part.drop_last(), all.drop_last(), i);
            let j = choose|j: int|
                0 <= j < all.drop_last().len() && all.drop_last()[j] == part.drop_last()[i];
            assert(all[j] == part[i]);
        }
    }
}

/// Whoever is left in the queue when it has been served is not late.
pub proof fn lemma_nobody_late_is_left_in_the_queue(backend: BackendView, now: u64, i: int)
    requires
        pool_ok(backend.pool),
        0 <= i < dispatched(backend, now).waiting.len(),
    ensures
        !is_late(dispatched(backend, now).waiting[i], now),
        backend.waiting.contains(dispatched(backend, now).waiting[i]),
{
    let alive = waiting_expired(backend, now, 0);
    let on_time = |pending: PendingView| !is_late(pending, now);
    let left = dispatched(backend, now).waiting;
    lemma_only_late_requests_leave_the_queue(backend, now);
    assert(alive.waiting == backend.waiting.filter(on_time));
    lemma_dispatch_keeps_order(alive, 0);
    lemma_parts_are_among(left, alive.waiting, i);
    let j = choose|j: int| 0 <= j < alive.waiting.len() && alive.waiting[j] == left[i];
    lemma_filtered_are_among(backend.waiting, on_time, j);
}

proof fn lemma_filtered_are_among(
    all: Seq<PendingView>,
    pred: spec_fn(PendingView) -> bool,
    i: int,
)
    requires
        0 <= i < all.filter(pred).len(),
    ensures
        all.contains(all.filter(pred)[i]),
        pred(all.filter(pred)[i]),
    decreases all.len(),
{
    reveal(Seq::filter);
    if all.len() > 0 {
        let front = all.drop_last();
        if i < front.filter(pred).len() {
            lemma_filtered_are_among(front, pred, i);
            let j = choose|j: int| 0 <= j < front.len() && front[j] == front.filter(pred)[i];
            assert(all[j] == all.filter(pred)[i]);
        } else {
            assert(all[all.len() - 1] == all.filter(pred)[i]);
        }
    }
}

/// Events are taken in their order, each told whether its connection fails in the same batch.
pub proof fn lemma_events_are_taken_in_order(
    backend: BackendView,
    events: Seq<EventView>,
    count: nat,
    now: u64,
)
    requires
        count < events.len(),
    ensures
        batch_processed(backend, events, 0, now) == backend,
        batch_processed(backend, events, count + 1, now) == event_processed(
            batch_processed(backend, events, count, now),
            events[count as int],
            !(exists|i: int|
                0 <= i < events.len() && (#[trigger] events[i]).kind is Failed
                    && events[i].report.slot == events[count as int].report.slot),
            now,
        ),
{
}

/// What happens on TCP connections is taken in its order too.
pub proof fn lemma_tcp_events_are_taken_in_order(
    engine: TcpView,
    events: Seq<TcpEventView>,
    count: nat,
    now: u64,
)
    requires
        count < events.len(),
    ensures
        tcp_batch(engine, events, 0, now) == engine,
        tcp_batch(engine, events, count + 1, now) == tcp_event_handled(
            tcp_batch(engine, events, count, now),
            events[count as int],
            exists|i: int|
                0 <= i < events.len() && (#[trigger] events[i]).kind is Failed
                    && events[i].report.slot == events[count as int].report.slot,
            now,
        ),
{
}

/// Connections are looked at, and answers taken, one after the other; none is passed over.
pub proof fn lemma_everything_is_looked_at(
    engines: EnginesView,
    reports: Seq<SocketReport>,
    tcp_reports: Seq<TcpReport>,
    results: Seq<ResolverResultView>,
    count: nat,
    now: u64,
)
    ensures
        streams_resumed(engines.http, reports, 0, now) == engines.http,
        count < reports.len() ==> streams_resumed(engines.http, reports, count + 1, now)
            == stream_resumed(
            streams_resumed(engines.http, reports, count, now),
            reports[count as int],
            now,
        ),
        tcp_all_resumed(engines.tcp, tcp_reports, 0, now) == engines.tcp,
        count < tcp_reports.len() ==> tcp_all_resumed(engines.tcp, tcp_reports, count + 1, now)
            == tcp_resumed(
            tcp_all_resumed(engines.tcp, tcp_reports, count, now),
            tcp_reports[count as int],
            now,
        ),
        results_taken(engines, results, 0, now) == engines,
        count < results.len() ==> results_taken(engines, results, count + 1, now) == result_taken(
            results_taken(engines, results, count, now),
            results[count as int],
            now,
        ),
{
}

/// A turn in which nothing happens still does what time demands: idle connections whose time is up are
/// closed, lookups and requests that are late end, and whoever waits is served.
pub proof fn lemma_quiet_turns_do_what_time_demands(engines: EnginesView, now: u64)
    ensures
        ({
            let begun = turn_begun(engines, Seq::empty(), Seq::empty(), Seq::empty(), now);
            let ended = turn_ended(
                engines,
                Seq::empty(),
                Seq::empty(),
                Seq::empty(),
                Seq::empty(),
                now,
            );
            &&& begun.http == dispatched(
                lookups_expired(dispatched(idle_closed(engines.http, now), now), now, 0),
                now,
            )
            &&& begun.tcp == tcp_lookups_expired(engines.tcp, now, 0)
            &&& begun.lookups == resolves_expired(engines.lookups, now, 0)
            &&& ended.http == dispatched(lookups_expired(engines.http, now, 0), now)
            &&& ended.tcp == tcp_lookups_expired(engines.tcp, now, 0)
            &&& ended.lookups == resolves_expired(engines.lookups, now, 0)
        }),
{
}

/// What happens on connections is taken before lookups and requests are found late, and before the
/// queue is served: a connection that becomes free is there for whoever waits.
pub proof fn lemma_events_come_before_the_queue(
    engines: EnginesView,
    events: Seq<EventView>,
    tcp_events: Seq<TcpEventView>,
    now: u64,
)
    ensures
        turn_ended(engines, events, tcp_events, Seq::empty(), Seq::empty(), now).http == dispatched(
            lookups_expired(batch_processed(engines.http, events, events.len(), now), now, 0),
            now,
        ),
        turn_ended(engines, events, tcp_events, Seq::empty(), Seq::empty(), now).tcp
            == tcp_lookups_expired(tcp_batch(engines.tcp, tcp_events, tcp_events.len(), now), now, 0),
{
}

} // verus!
