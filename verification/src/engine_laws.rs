//! What holds of the engine as a whole: connections that fail, connections that are used again, and
//! redirects.

use crate::backend::{emitted, released, BackendView, EffectView};
use crate::deadline::{due, is_past, sooner};
use crate::dispatch::{
    all_closed, lookup_begun, pending_outbound, pending_started, placed, reuse_begun, reused_tls,
    room_taken,
};
use crate::engine::{
    continued, finished, followed, one_more, parked, response_completed, settled, stream_completed,
};
use crate::events::{batch_processed, event_processed, fails};
use crate::exchange::{exchange_deadline, reader_followed, stream_redirect, ExchangeView};
use crate::pending::{
    pending_deadline, pending_made, redirect_deadlines, started, PendingResponseView, PendingView,
};
use crate::pool::{
    dropped, first_key, idle_keys, lemma_first_key_bounds, lemma_slot_position, may_park, room_made,
    KeyView, PoolView,
};
use crate::step::{event_taken, EventView, Step};
use crate::table::{found, holds, without_id};
use crate::transfer::OutcomeView;
use crate::types::{ErrorKind, ErrorView, RequestView, ResponseHeadView};
use vstd::prelude::*;

verus! {

/// Whether something is asked of a connection other than to close it.
pub open spec fn touches(effect: EffectView, slot: u64) -> bool {
    match effect {
        EffectView::Connect { slot: other, .. } => slot == other,
        EffectView::Reuse { slot: other, .. } => slot == other,
        EffectView::Send { slot: other, .. } => slot == other,
        EffectView::SetDeadline { slot: other, .. } => slot == other,
        EffectView::SetReadAllowance { slot: other, .. } => slot == other,
        _ => false,
    }
}

/// Nothing is asked of a connection other than to close it, and it is not idle.
pub open spec fn left_alone(backend: BackendView, slot: u64) -> bool {
    &&& forall|i: int|
        0 <= i < backend.effects.len() ==> !touches(#[trigger] backend.effects[i], slot)
    &&& forall|j: int|
        0 <= j < backend.pool.idle.len() ==> (#[trigger] backend.pool.idle[j]).slot != slot
}

proof fn lemma_all_closed_alone(backend: BackendView, slots: Seq<u64>, slot: u64)
    requires
        left_alone(backend, slot),
    ensures
        left_alone(all_closed(backend, slots), slot),
    decreases slots.len(),
{
    if slots.len() > 0 {
        lemma_all_closed_alone(backend, slots.drop_last(), slot);
    }
}

proof fn lemma_room_alone(pool: PoolView, key: KeyView, slot: u64)
    requires
        forall|j: int| 0 <= j < pool.idle.len() ==> (#[trigger] pool.idle[j]).slot != slot,
    ensures
        forall|j: int|
            0 <= j < room_made(pool, key).pool.idle.len() ==> (
            #[trigger] room_made(pool, key).pool.idle[j]).slot != slot,
    decreases pool.idle.len(),
{
    let own = first_key(idle_keys(pool.idle), key);
    if crate::pool::tally(pool.leases, key) >= pool.limits.per_origin {
        if 0 <= own < pool.idle.len() {
            lemma_room_alone(dropped(pool, own), key, slot);
        }
    } else if pool.leases.len() >= pool.limits.global {
        if pool.idle.len() > 0 {
            lemma_room_alone(dropped(pool, 0), key, slot);
        }
    }
}

proof fn lemma_started_alone(backend: BackendView, pending: PendingView, now: u64, slot: u64)
    requires
        left_alone(backend, slot),
    ensures
        left_alone(pending_started(backend, pending, now), slot),
{
    reveal(placed);
    reveal(reuse_begun);
    reveal(room_taken);
    reveal(lookup_begun);
    lemma_first_key_bounds(idle_keys(backend.pool.idle), pending.key);
    let (next, reused) = reuse_begun(backend, pending);
    assert(left_alone(next, slot)) by {
        let at = first_key(idle_keys(backend.pool.idle), pending.key);
        if at < backend.pool.idle.len() {
            assert(backend.pool.idle[at].slot != slot);
        }
    }
    lemma_room_alone(next.pool, pending.key, slot);
    let made = room_made(next.pool, pending.key);
    lemma_all_closed_alone(BackendView { pool: made.pool, ..next }, made.dropped, slot);
}

proof fn lemma_followed_alone(
    backend: BackendView,
    exchange: ExchangeView,
    request: RequestView,
    response: PendingResponseView,
    now: u64,
    slot: u64,
)
    requires
        left_alone(backend, slot),
    ensures
        left_alone(followed(backend, exchange, request, response, now), slot),
{
    match pending_made(
        backend.limits,
        exchange.request_id,
        request,
        redirect_deadlines(request.options, exchange.total_deadline, now),
        one_more(exchange.redirect_hops),
        ErrorKind::Redirect,
        response,
    ) {
        Ok(pending) => {
            lemma_started_alone(backend, pending, now, slot);
        },
        Err(_) => {},
    }
}

proof fn lemma_parked_alone(
    backend: BackendView,
    other: u64,
    exchange: ExchangeView,
    permits_reuse: bool,
    now: u64,
    slot: u64,
)
    requires
        left_alone(backend, slot),
        other == slot ==> !permits_reuse,
    ensures
        left_alone(parked(backend, other, exchange, permits_reuse, now), slot),
{
    reveal(parked);
}

proof fn lemma_settled_alone(
    backend: BackendView,
    other: u64,
    step: Step,
    armed: bool,
    now: u64,
    slot: u64,
)
    requires
        left_alone(backend, slot),
        other == slot ==> !armed,
    ensures
        left_alone(settled(backend, other, step, armed, now), slot),
{
    reveal(continued);
    reveal(finished);
    reveal(response_completed);
    reveal(stream_completed);
    let exchange = step.transfer.exchange;
    match step.outcome {
        OutcomeView::Completed { response, permits_reuse, peer_closed } => {
            let reusable = permits_reuse && !peer_closed && armed;
            lemma_parked_alone(backend, other, exchange, reusable, now, slot);
            let after = parked(backend, other, exchange, reusable, now);
            match crate::redirect::redirected(
                exchange.request,
                response.status,
                exchange.redirect_hops,
                crate::redirect::redirect_target(exchange.request.url, response.headers),
            ) {
                Ok(Some(request)) => {
                    lemma_followed_alone(
                        after,
                        exchange,
                        request,
                        PendingResponseView::Buffered,
                        now,
                        slot,
                    );
                },
                _ => {},
            }
        },
        OutcomeView::StreamComplete { permits_reuse, peer_closed } => {
            let reusable = permits_reuse && !peer_closed && armed;
            lemma_parked_alone(backend, other, exchange, reusable, now, slot);
            lemma_parked_alone(backend, other, exchange, false, now, slot);
            match step.transfer.response {
                crate::transfer::TransferResponseView::Streaming(stream) => {
                    if let Some(request) = stream.redirect {
                        lemma_followed_alone(
                            parked(backend, other, exchange, reusable, now),
                            exchange,
                            request,
                            PendingResponseView::Streaming {
                                response: stream.decoder.response->0,
                                upload: None,
                            },
                            now,
                            slot,
                        );
                    }
                },
                _ => {},
            }
        },
        _ => {},
    }
}

proof fn lemma_event_alone(
    backend: BackendView,
    event: EventView,
    armed: bool,
    now: u64,
    slot: u64,
)
    requires
        left_alone(backend, slot),
        event.report.slot == slot ==> !armed,
    ensures
        left_alone(event_processed(backend, event, armed, now), slot),
{
    let other = event.report.slot;
    lemma_slot_position(backend.pool.idle, other);
    if holds(backend.transfers, other) {
        lemma_settled_alone(
            BackendView { transfers: without_id(backend.transfers, other), ..backend },
            other,
            event_taken(
                crate::transfer::proven(found(backend.transfers, other)),
                event,
                armed,
                now,
            ),
            armed,
            now,
            slot,
        );
    }
}

/// The end of a connection comes first: while a batch is taken in which a connection fails that was
/// not idle, nothing more is asked of that connection, however early in the batch it made progress,
/// and it is not kept for another request.
pub proof fn lemma_failure_dominates_the_batch(
    backend: BackendView,
    events: Seq<EventView>,
    count: nat,
    now: u64,
    slot: u64,
)
    requires
        count <= events.len(),
        fails(events, slot),
        left_alone(backend, slot),
    ensures
        left_alone(batch_processed(backend, events, count, now), slot),
    decreases count,
{
    if count > 0 {
        lemma_failure_dominates_the_batch(backend, events, (count - 1) as nat, now, slot);
        let event = events[count - 1];
        lemma_event_alone(
            batch_processed(backend, events, (count - 1) as nat, now),
            event,
            !fails(events, event.report.slot),
            now,
            slot,
        );
    }
}

/// A failed exchange is not repeated: its connection is closed, the lease given back, and nothing
/// else is asked of the socket layer.
pub proof fn lemma_failures_are_not_replayed(
    backend: BackendView,
    slot: u64,
    step: Step,
    error: ErrorView,
    armed: bool,
    now: u64,
)
    requires
        step.outcome == OutcomeView::Failed(error),
    ensures
        settled(backend, slot, step, armed, now).effects == backend.effects.push(
            EffectView::Close { slot },
        ),
        settled(backend, slot, step, armed, now).pool == released(
            backend,
            step.transfer.exchange.key,
        ).pool,
        settled(backend, slot, step, armed, now).waiting == backend.waiting,
        settled(backend, slot, step, armed, now).resolves == backend.resolves,
        settled(backend, slot, step, armed, now).transfers == backend.transfers,
{
    reveal(finished);
}

/// A connection that carried an exchange to a clean end is used again: the next request to the same
/// origin goes out on it, where nothing else is idle for that origin and nothing arrived on it.
pub proof fn lemma_clean_connection_is_reused(
    backend: BackendView,
    slot: u64,
    exchange: ExchangeView,
    pending: PendingView,
    now: u64,
)
    requires
        exchange.request_permits_reuse,
        exchange.request_write_drained,
        may_park(backend.pool, exchange.key),
        due(now, Some(backend.pool.limits.idle_timeout)) is Some,
        first_key(idle_keys(backend.pool.idle), exchange.key) == backend.pool.idle.len(),
        pending.key == exchange.key,
        !is_past(pending_deadline(pending), now),
    ensures
        ({
            let after = parked(backend, slot, exchange, true, now);
            let next = pending_started(after, pending, now);
            &&& next.effects == after.effects.push(
                EffectView::Reuse {
                    slot,
                    deadline: pending_deadline(pending),
                    outbound_limit: pending_outbound(pending, exchange.tls is Some),
                    receive_limit: crate::config::receive_bound(backend.limits),
                    bytes: pending.serialized.bytes,
                },
            )
            &&& next.pool.leases == backend.pool.leases
            &&& next.pool.idle == backend.pool.idle
            &&& next.pool.counts.opened == backend.pool.counts.opened
            &&& next.pool.counts.closed == backend.pool.counts.closed
            &&& next.pool.counts.reused == crate::pool::grown(backend.pool.counts.reused, 1)
            &&& next.transfers == backend.transfers.push(
                (
                    slot,
                    started(
                        pending,
                        true,
                        reused_tls(exchange.tls),
                        pending.inactivity_deadline,
                        backend.limits,
                    ),
                ),
            )
        }),
{
    reveal(parked);
    reveal(placed);
    reveal(reuse_begun);
    let after = parked(backend, slot, exchange, true, now);
    let keys = idle_keys(after.pool.idle);
    assert(keys =~= idle_keys(backend.pool.idle).push(exchange.key));
    crate::pool::lemma_first_key_pushed(idle_keys(backend.pool.idle), exchange.key);
    let at = backend.pool.idle.len() as int;
    assert(after.pool.idle.remove(at) =~= backend.pool.idle);
}

/// A connection is kept only where the peer permits it, the request does, everything was written, and
/// idle connections are allowed at all. Otherwise it is closed and its lease given back.
pub proof fn lemma_unclean_connection_is_closed(
    backend: BackendView,
    slot: u64,
    exchange: ExchangeView,
    permits_reuse: bool,
    now: u64,
)
    requires
        !permits_reuse || !exchange.request_permits_reuse || !exchange.request_write_drained
            || backend.pool.limits.idle_timeout == 0 || backend.pool.limits.idle_global == 0
            || backend.pool.limits.idle_per_origin == 0,
    ensures
        parked(backend, slot, exchange, permits_reuse, now) == emitted(
            released(backend, exchange.key),
            EffectView::Close { slot },
        ),
{
    reveal(parked);
}

/// A redirect does not buy time: the request that follows it keeps the total deadline of the first
/// one, while it waits and while it is carried.
pub proof fn lemma_total_deadline_survives_redirects(
    backend: BackendView,
    exchange: ExchangeView,
    request: RequestView,
    response: PendingResponseView,
    connected: bool,
    inactivity_deadline: Option<u64>,
    now: u64,
)
    ensures
        pending_made(
            backend.limits,
            exchange.request_id,
            request,
            redirect_deadlines(request.options, exchange.total_deadline, now),
            one_more(exchange.redirect_hops),
            ErrorKind::Redirect,
            response,
        ) matches Ok(pending) ==> {
            &&& pending.total_deadline == exchange.total_deadline
            &&& started(
                pending,
                connected,
                None,
                inactivity_deadline,
                backend.limits,
            ).exchange.total_deadline == exchange.total_deadline
        },
        exchange.total_deadline is Some && is_past(exchange.total_deadline, now)
            && pending_made(
            backend.limits,
            exchange.request_id,
            request,
            redirect_deadlines(request.options, exchange.total_deadline, now),
            one_more(exchange.redirect_hops),
            ErrorKind::Redirect,
            response,
        ) is Ok ==> followed(backend, exchange, request, response, now).effects
            == backend.effects,
{
}

/// While the reader holds up delivery, inactivity does not count but the other deadlines do.
pub proof fn lemma_backpressure_pauses_inactivity_only(exchange: ExchangeView, now: u64)
    ensures
        exchange_deadline(reader_followed(exchange, true, now)) == sooner(
            exchange.total_deadline,
            if exchange.connected {
                None
            } else {
                exchange.connect_deadline
            },
        ),
        reader_followed(exchange, true, now).total_deadline == exchange.total_deadline,
{
}

/// A request whose body is streamed is never sent again: a redirect is handed to the reader as the
/// response.
pub proof fn lemma_streamed_uploads_are_not_redirected(
    exchange: ExchangeView,
    head: ResponseHeadView,
)
    requires
        exchange.upload is Some,
    ensures
        stream_redirect(exchange, head) == Ok::<Option<RequestView>, ErrorView>(None),
{
}

} // verus!
