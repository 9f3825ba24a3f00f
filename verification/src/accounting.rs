//! No request is lost, and none is answered twice: wherever a request goes, it is in exactly one
//! place, and it leaves the last one when its end is reported.

use crate::backend::{backend_ok, emitted, released, reported, BackendView, EffectView};
use crate::control::{lookup_ids, transfer_ids, waiting_ids};
use crate::dispatch::{
    all_closed, dispatched, lemma_all_closed, lookup_begun, pending_started, placed, queued,
    reuse_begun, reuse_undone, room_taken, waiting_dispatched, waiting_expired,
};
use crate::engine::{
    closed, continued, delivered, finished, followed, one_more, parked, response_completed, settled,
    stream_completed,
};
use crate::events::{batch_processed, event_processed, idle_closed, streams_resumed};
use crate::exchange::ExchangeView;
use crate::lookup::{connection_begun, given_up, located, lookups_expired, submitted, LookupView};
use crate::pending::{
    pending_made, redirect_deadlines, retried, CompletionView, PendingResponseView, PendingView,
};
use crate::pool::{dropped, idle_expired, room_made, slot_position};
use crate::resolver::resolves_expired;
use crate::step::{
    event_taken, has_sink, lemma_event_keeps_exchange, lemma_resume_keeps_exchange, resumed,
    EventView, SocketReport, Step,
};
use crate::table::{found, holds, lemma_position, position, without_id};
use crate::tcp::tcp_lookups_expired;
use crate::tcp_events::{tcp_all_resumed, tcp_batch, TcpEventView, TcpReport};
use crate::transfer::{proven, OutcomeView, TransferResponseView, TransferView};
use crate::turn::{
    dns_drained, lookups_settled, results_taken, turn_begun, turn_ended, EnginesView,
    ResolverResultView,
};
use crate::types::{ErrorKind, RequestView};
use vstd::prelude::*;

verus! {

/// How often a number occurs.
pub open spec fn occurrences(numbers: Seq<u64>, number: u64) -> nat
    decreases numbers.len(),
{
    if numbers.len() == 0 {
        0
    } else {
        occurrences(numbers.drop_last(), number) + once(numbers.last() == number)
    }
}

/// One where something is so, and zero where it is not.
pub open spec fn once(so: bool) -> nat {
    if so {
        1
    } else {
        0
    }
}

/// The numbers of the requests whose end was reported.
pub open spec fn done_ids(done: Seq<(u64, CompletionView)>) -> Seq<u64> {
    done.map_values(|entry: (u64, CompletionView)| entry.0)
}

/// In how many places a request is: in the queue, in a lookup, on a connection, or among those whose
/// end was reported.
pub open spec fn places(backend: BackendView, id: u64) -> nat {
    occurrences(waiting_ids(backend.waiting), id) + occurrences(lookup_ids(backend.resolves), id)
        + occurrences(transfer_ids(backend.transfers), id) + occurrences(done_ids(backend.done), id)
}

/// Every response that is delivered has its sink.
pub open spec fn sinks_there(backend: BackendView) -> bool {
    forall|i: int|
        0 <= i < backend.transfers.len() ==> has_sink((#[trigger] backend.transfers[i]).1)
}

proof fn lemma_occurrences_push(numbers: Seq<u64>, added: u64, number: u64)
    ensures
        occurrences(numbers.push(added), number) == occurrences(numbers, number) + once(
            added == number,
        ),
{
    assert(numbers.push(added).drop_last() =~= numbers);
}

proof fn lemma_occurrences_remove(numbers: Seq<u64>, at: int, number: u64)
    requires
        0 <= at < numbers.len(),
    ensures
        occurrences(numbers, number) == occurrences(numbers.remove(at), number) + once(
            numbers[at] == number,
        ),
    decreases numbers.len(),
{
    if at == numbers.len() - 1 {
        assert(numbers.remove(at) =~= numbers.drop_last());
    } else {
        lemma_occurrences_remove(numbers.drop_last(), at, number);
        assert(numbers.remove(at).drop_last() =~= numbers.drop_last().remove(at));
    }
}

proof fn lemma_reported(backend: BackendView, done: u64, completion: CompletionView, id: u64)
    ensures
        places(reported(backend, done, completion), id) == places(backend, id) + once(done == id),
        sinks_there(backend) ==> sinks_there(reported(backend, done, completion)),
{
    let next = reported(backend, done, completion);
    assert(done_ids(next.done) =~= done_ids(backend.done).push(done));
    lemma_occurrences_push(done_ids(backend.done), done, id);
}

proof fn lemma_transfer_pushed(backend: BackendView, slot: u64, transfer: TransferView, id: u64)
    requires
        sinks_there(backend),
        has_sink(transfer),
    ensures
        ({
            let next = BackendView {
                transfers: backend.transfers.push((slot, transfer)),
                ..backend
            };
            &&& places(next, id) == places(backend, id) + once(transfer.exchange.request_id == id)
            &&& sinks_there(next)
        }),
{
    let more = backend.transfers.push((slot, transfer));
    assert(transfer_ids(more) =~= transfer_ids(backend.transfers).push(
        transfer.exchange.request_id,
    ));
    lemma_occurrences_push(transfer_ids(backend.transfers), transfer.exchange.request_id, id);
}

proof fn lemma_transfer_removed(backend: BackendView, slot: u64, id: u64)
    requires
        sinks_there(backend),
        holds(backend.transfers, slot),
    ensures
        ({
            let next = BackendView { transfers: without_id(backend.transfers, slot), ..backend };
            &&& places(backend, id) == places(next, id) + once(
                found(backend.transfers, slot).exchange.request_id == id,
            )
            &&& sinks_there(next)
            &&& has_sink(found(backend.transfers, slot))
        }),
{
    lemma_position(backend.transfers, slot);
    let at = position(backend.transfers, slot);
    let left = without_id(backend.transfers, slot);
    assert(transfer_ids(left) =~= transfer_ids(backend.transfers).remove(at));
    lemma_occurrences_remove(transfer_ids(backend.transfers), at, id);
    assert(has_sink(backend.transfers[at].1));
    assert forall|i: int| 0 <= i < left.len() implies has_sink((#[trigger] left[i]).1) by {
        let from = if i < at {
            i
        } else {
            i + 1
        };
        assert(left[i] == backend.transfers[from]);
    }
}

proof fn lemma_lookup_pushed(backend: BackendView, key: u64, pending: PendingView, id: u64)
    ensures
        places(
            BackendView { resolves: backend.resolves.push((key, pending)), ..backend },
            id,
        ) == places(backend, id) + once(pending.request_id == id),
{
    let more = backend.resolves.push((key, pending));
    assert(lookup_ids(more) =~= lookup_ids(backend.resolves).push(pending.request_id));
    lemma_occurrences_push(lookup_ids(backend.resolves), pending.request_id, id);
}

proof fn lemma_lookup_removed(backend: BackendView, at: int, id: u64)
    requires
        0 <= at < backend.resolves.len(),
    ensures
        places(backend, id) == places(
            BackendView { resolves: backend.resolves.remove(at), ..backend },
            id,
        ) + once(backend.resolves[at].1.request_id == id),
{
    let left = backend.resolves.remove(at);
    assert(lookup_ids(left) =~= lookup_ids(backend.resolves).remove(at));
    lemma_occurrences_remove(lookup_ids(backend.resolves), at, id);
}

proof fn lemma_waiting_pushed(backend: BackendView, pending: PendingView, id: u64)
    ensures
        places(BackendView { waiting: backend.waiting.push(pending), ..backend }, id) == places(
            backend,
            id,
        ) + once(pending.request_id == id),
{
    let more = backend.waiting.push(pending);
    assert(waiting_ids(more) =~= waiting_ids(backend.waiting).push(pending.request_id));
    lemma_occurrences_push(waiting_ids(backend.waiting), pending.request_id, id);
}

proof fn lemma_waiting_removed(backend: BackendView, at: int, id: u64)
    requires
        0 <= at < backend.waiting.len(),
    ensures
        places(backend, id) == places(
            BackendView { waiting: backend.waiting.remove(at), ..backend },
            id,
        ) + once(backend.waiting[at].request_id == id),
{
    let left = backend.waiting.remove(at);
    assert(waiting_ids(left) =~= waiting_ids(backend.waiting).remove(at));
    lemma_occurrences_remove(waiting_ids(backend.waiting), at, id);
}

proof fn lemma_placed(backend: BackendView, pending: PendingView, id: u64)
    requires
        sinks_there(backend),
    ensures
        sinks_there(placed(backend, pending).0),
        places(placed(backend, pending).0, id) == places(backend, id) + once(
            placed(backend, pending).1 && pending.request_id == id,
        ),
        placed(backend, pending).0.waiting == backend.waiting,
{
    reveal(placed);
    reveal(reuse_begun);
    let (next, reused) = reuse_begun(backend, pending);
    let at = crate::pool::first_key(
        crate::pool::idle_keys(backend.pool.idle),
        pending.key,
    );
    if reused {
        let connection = backend.pool.idle[at];
        lemma_transfer_pushed(
            backend,
            connection.slot,
            crate::pending::started(
                pending,
                true,
                crate::dispatch::reused_tls(connection.tls),
                pending.inactivity_deadline,
                backend.limits,
            ),
            id,
        );
    } else {
        lemma_room_taken(next, pending, id);
    }
}

proof fn lemma_room_taken(backend: BackendView, pending: PendingView, id: u64)
    requires
        sinks_there(backend),
    ensures
        sinks_there(room_taken(backend, pending).0),
        room_taken(backend, pending).0.waiting == backend.waiting,
        places(room_taken(backend, pending).0, id) == places(backend, id) + once(
            room_taken(backend, pending).1 && pending.request_id == id,
        ),
{
    reveal(room_taken);
    reveal(lookup_begun);
    let made = room_made(backend.pool, pending.key);
    let made_room = BackendView { pool: made.pool, ..backend };
    lemma_all_closed(made_room, made.dropped);
    let roomy = all_closed(made_room, made.dropped);
    lemma_lookup_pushed(roomy, roomy.next_resolve_key, pending, id);
    lemma_reported(
        released(
            BackendView { pool: crate::pool::leased(made.pool, pending.key), ..roomy },
            pending.key,
        ),
        pending.request_id,
        crate::pending::pending_failed(pending.response, crate::dispatch::lookups_exhausted()),
        id,
    );
}

proof fn lemma_started(backend: BackendView, pending: PendingView, now: u64, id: u64)
    requires
        sinks_there(backend),
    ensures
        sinks_there(pending_started(backend, pending, now)),
        places(pending_started(backend, pending, now), id) == places(backend, id) + once(
            pending.request_id == id,
        ),
{
    lemma_reported(
        backend,
        pending.request_id,
        crate::pending::pending_failed(
            pending.response,
            crate::failure::expired(crate::pending::pending_timeout(pending, now)),
        ),
        id,
    );
    lemma_placed(backend, pending, id);
    lemma_waiting_pushed(placed(backend, pending).0, pending, id);
    assert(places(queued(placed(backend, pending).0, pending), id) == places(
        BackendView {
            waiting: placed(backend, pending).0.waiting.push(pending),
            ..placed(backend, pending).0
        },
        id,
    ));
}

proof fn lemma_followed(
    backend: BackendView,
    exchange: ExchangeView,
    request: RequestView,
    response: PendingResponseView,
    now: u64,
    id: u64,
)
    requires
        sinks_there(backend),
    ensures
        sinks_there(followed(backend, exchange, request, response, now)),
        places(followed(backend, exchange, request, response, now), id) == places(backend, id)
            + once(exchange.request_id == id),
{
    match pending_made(
        backend.limits,
        exchange.request_id,
        request,
        redirect_deadlines(request.options, exchange.total_deadline, now),
        one_more(exchange.redirect_hops),
        ErrorKind::Redirect,
        response,
    ) {
        Ok(pending) => {
            lemma_started(backend, pending, now, id);
        },
        Err(error) => {
            lemma_reported(
                backend,
                exchange.request_id,
                crate::pending::pending_failed(response, error),
                id,
            );
        },
    }
}

proof fn lemma_parked(
    backend: BackendView,
    slot: u64,
    exchange: ExchangeView,
    permits_reuse: bool,
    now: u64,
    id: u64,
)
    ensures
        places(parked(backend, slot, exchange, permits_reuse, now), id) == places(backend, id),
        sinks_there(backend) ==> sinks_there(parked(backend, slot, exchange, permits_reuse, now)),
{
    reveal(parked);
}

proof fn lemma_delivered(backend: BackendView, done: u64, sink: crate::stream::SinkView, id: u64)
    ensures
        places(delivered(backend, done, Some(sink)), id) == places(backend, id) + once(
            done == id,
        ),
        sinks_there(backend) ==> sinks_there(delivered(backend, done, Some(sink))),
{
    lemma_reported(backend, done, CompletionView::Delivered(sink), id);
}

proof fn lemma_finished(
    backend: BackendView,
    slot: u64,
    transfer: TransferView,
    ending: crate::engine::EndingView,
    id: u64,
)
    requires
        sinks_there(backend),
        has_sink(transfer),
    ensures
        sinks_there(finished(backend, slot, transfer, ending)),
        places(finished(backend, slot, transfer, ending), id) == places(backend, id) + once(
            transfer.exchange.request_id == id,
        ),
{
    reveal(finished);
    let gone = closed(backend, slot, transfer.exchange.key);
    let done = transfer.exchange.request_id;
    match transfer.response {
        TransferResponseView::Buffered(_) => {
            lemma_reported(
                gone,
                done,
                match ending {
                    crate::engine::EndingView::Completed(response) => CompletionView::Completed(
                        response,
                    ),
                    crate::engine::EndingView::Failed(error) => CompletionView::Failed(error),
                    crate::engine::EndingView::Cancelled => CompletionView::Cancelled,
                },
                id,
            );
        },
        TransferResponseView::Streaming(stream) => {
            lemma_delivered(
                gone,
                done,
                crate::engine::failed_sink(
                    stream.decoder.response,
                    crate::engine::stream_ending(ending),
                )->0,
                id,
            );
        },
    }
}

proof fn lemma_response_completed(
    backend: BackendView,
    slot: u64,
    transfer: TransferView,
    response: crate::types::ResponseView,
    permits_reuse: bool,
    now: u64,
    id: u64,
)
    requires
        sinks_there(backend),
    ensures
        sinks_there(
            response_completed(backend, slot, transfer, response, permits_reuse, now),
        ),
        places(
            response_completed(backend, slot, transfer, response, permits_reuse, now),
            id,
        ) == places(backend, id) + once(transfer.exchange.request_id == id),
{
    reveal(response_completed);
    let exchange = transfer.exchange;
    lemma_parked(backend, slot, exchange, permits_reuse, now, id);
    let after = parked(backend, slot, exchange, permits_reuse, now);
    match crate::redirect::redirected(
        exchange.request,
        response.status,
        exchange.redirect_hops,
        crate::redirect::redirect_target(exchange.request.url, response.headers),
    ) {
        Ok(None) => {
            lemma_reported(after, exchange.request_id, CompletionView::Completed(response), id);
        },
        Err(error) => {
            lemma_reported(after, exchange.request_id, CompletionView::Failed(error), id);
        },
        Ok(Some(request)) => {
            lemma_followed(after, exchange, request, PendingResponseView::Buffered, now, id);
        },
    }
}

proof fn lemma_stream_completed(
    backend: BackendView,
    slot: u64,
    transfer: TransferView,
    permits_reuse: bool,
    now: u64,
    id: u64,
)
    requires
        sinks_there(backend),
        has_sink(transfer),
        transfer.response is Streaming,
    ensures
        sinks_there(stream_completed(backend, slot, transfer, permits_reuse, now)),
        places(stream_completed(backend, slot, transfer, permits_reuse, now), id) == places(
            backend,
            id,
        ) + once(transfer.exchange.request_id == id),
{
    reveal(stream_completed);
    let exchange = transfer.exchange;
    lemma_parked(backend, slot, exchange, permits_reuse, now, id);
    lemma_parked(backend, slot, exchange, false, now, id);
    let after = parked(backend, slot, exchange, permits_reuse, now);
    if let TransferResponseView::Streaming(stream) = transfer.response {
        let sink = stream.decoder.response->0;
        match stream.redirect {
            None => {
                lemma_delivered(after, exchange.request_id, sink, id);
            },
            Some(request) => {
                lemma_followed(
                    after,
                    exchange,
                    request,
                    PendingResponseView::Streaming { response: sink, upload: None },
                    now,
                    id,
                );
                lemma_delivered(
                    parked(backend, slot, exchange, false, now),
                    exchange.request_id,
                    crate::engine::failed_sink(
                        stream.decoder.response,
                        crate::stream_decoder::refused_transfer(stream.decoder),
                    )->0,
                    id,
                );
            },
        }
    }
}

proof fn lemma_settled(
    backend: BackendView,
    slot: u64,
    step: Step,
    armed: bool,
    now: u64,
    id: u64,
)
    requires
        sinks_there(backend),
        has_sink(step.transfer),
        step.outcome is StreamComplete ==> step.transfer.response is Streaming,
    ensures
        sinks_there(settled(backend, slot, step, armed, now)),
        places(settled(backend, slot, step, armed, now), id) == places(backend, id) + once(
            step.transfer.exchange.request_id == id,
        ),
{
    match step.outcome {
        OutcomeView::Running => {
            reveal(continued);
            lemma_transfer_pushed(backend, slot, step.transfer, id);
        },
        OutcomeView::Failed(error) => {
            lemma_finished(
                backend,
                slot,
                step.transfer,
                crate::engine::EndingView::Failed(error),
                id,
            );
        },
        OutcomeView::Finished(response) => {
            lemma_finished(
                backend,
                slot,
                step.transfer,
                crate::engine::EndingView::Completed(response),
                id,
            );
        },
        OutcomeView::Completed { response, permits_reuse, peer_closed } => {
            lemma_response_completed(
                backend,
                slot,
                step.transfer,
                response,
                permits_reuse && !peer_closed && armed,
                now,
                id,
            );
        },
        OutcomeView::StreamComplete { permits_reuse, peer_closed } => {
            lemma_stream_completed(
                backend,
                slot,
                step.transfer,
                permits_reuse && !peer_closed && armed,
                now,
                id,
            );
        },
    }
}

proof fn lemma_event(backend: BackendView, event: EventView, armed: bool, now: u64, id: u64)
    requires
        sinks_there(backend),
    ensures
        sinks_there(event_processed(backend, event, armed, now)),
        places(event_processed(backend, event, armed, now), id) == places(backend, id),
{
    let slot = event.report.slot;
    if slot_position(backend.pool.idle, slot) >= backend.pool.idle.len() && holds(
        backend.transfers,
        slot,
    ) {
        let transfer = proven(found(backend.transfers, slot));
        lemma_transfer_removed(backend, slot, id);
        lemma_event_keeps_exchange(transfer, event, armed, now);
        lemma_settled(
            BackendView { transfers: without_id(backend.transfers, slot), ..backend },
            slot,
            event_taken(transfer, event, armed, now),
            armed,
            now,
            id,
        );
    }
}

proof fn lemma_batch(
    backend: BackendView,
    events: Seq<EventView>,
    count: nat,
    now: u64,
    id: u64,
)
    requires
        sinks_there(backend),
    ensures
        sinks_there(batch_processed(backend, events, count, now)),
        places(batch_processed(backend, events, count, now), id) == places(backend, id),
    decreases count,
{
    if count > 0 {
        lemma_batch(backend, events, (count - 1) as nat, now, id);
        let event = events[count - 1];
        lemma_event(
            batch_processed(backend, events, (count - 1) as nat, now),
            event,
            !crate::events::fails(events, event.report.slot),
            now,
            id,
        );
    }
}

proof fn lemma_resumed(
    backend: BackendView,
    reports: Seq<SocketReport>,
    count: nat,
    now: u64,
    id: u64,
)
    requires
        sinks_there(backend),
    ensures
        sinks_there(streams_resumed(backend, reports, count, now)),
        places(streams_resumed(backend, reports, count, now), id) == places(backend, id),
    decreases count,
{
    if count > 0 {
        lemma_resumed(backend, reports, (count - 1) as nat, now, id);
        let before = streams_resumed(backend, reports, (count - 1) as nat, now);
        let report = reports[count - 1];
        let slot = report.slot;
        if holds(before.transfers, slot) && found(before.transfers, slot).response is Streaming {
            let transfer = found(before.transfers, slot);
            lemma_transfer_removed(before, slot, id);
            lemma_resume_keeps_exchange(transfer, report, now);
            lemma_settled(
                BackendView { transfers: without_id(before.transfers, slot), ..before },
                slot,
                resumed(transfer, report, now),
                true,
                now,
                id,
            );
        }
    }
}

proof fn lemma_given_up(
    backend: BackendView,
    pending: PendingView,
    error: crate::types::ErrorView,
    id: u64,
)
    ensures
        places(given_up(backend, pending, error), id) == places(backend, id) + once(
            pending.request_id == id,
        ),
        sinks_there(backend) ==> sinks_there(given_up(backend, pending, error)),
{
    lemma_reported(
        released(backend, pending.key),
        pending.request_id,
        crate::pending::pending_failed(pending.response, error),
        id,
    );
}

proof fn lemma_lookups_expired(backend: BackendView, now: u64, from: nat, id: u64)
    requires
        sinks_there(backend),
    ensures
        sinks_there(lookups_expired(backend, now, from)),
        places(lookups_expired(backend, now, from), id) == places(backend, id),
    decreases backend.resolves.len() - from,
{
    if from < backend.resolves.len() {
        let (key, pending) = backend.resolves[from as int];
        if crate::deadline::is_past(crate::pending::pending_deadline(pending), now) {
            lemma_lookup_removed(backend, from as int, id);
            let taken = emitted(
                BackendView { resolves: backend.resolves.remove(from as int), ..backend },
                EffectView::CancelLocate { key },
            );
            let error = crate::failure::expired(crate::pending::pending_timeout(pending, now));
            lemma_given_up(taken, pending, error, id);
            lemma_lookups_expired(given_up(taken, pending, error), now, from, id);
        } else {
            lemma_lookups_expired(backend, now, from + 1, id);
        }
    }
}

proof fn lemma_waiting_expired(backend: BackendView, now: u64, from: nat, id: u64)
    requires
        sinks_there(backend),
    ensures
        sinks_there(waiting_expired(backend, now, from)),
        places(waiting_expired(backend, now, from), id) == places(backend, id),
    decreases backend.waiting.len() - from,
{
    if from < backend.waiting.len() {
        let pending = backend.waiting[from as int];
        if crate::deadline::is_past(crate::pending::pending_deadline(pending), now) {
            lemma_waiting_removed(backend, from as int, id);
            let taken = BackendView { waiting: backend.waiting.remove(from as int), ..backend };
            let completion = crate::pending::pending_failed(
                pending.response,
                crate::failure::expired(crate::pending::pending_timeout(pending, now)),
            );
            lemma_reported(taken, pending.request_id, completion, id);
            lemma_waiting_expired(
                reported(taken, pending.request_id, completion),
                now,
                from,
                id,
            );
        } else {
            lemma_waiting_expired(backend, now, from + 1, id);
        }
    }
}

proof fn lemma_waiting_dispatched(backend: BackendView, from: nat, id: u64)
    requires
        sinks_there(backend),
    ensures
        sinks_there(waiting_dispatched(backend, from)),
        places(waiting_dispatched(backend, from), id) == places(backend, id),
    decreases backend.waiting.len(), backend.waiting.len() - from,
{
    if from < backend.waiting.len() {
        let pending = backend.waiting[from as int];
        let rest = backend.waiting.remove(from as int);
        let taken = BackendView { waiting: rest, ..backend };
        lemma_waiting_removed(backend, from as int, id);
        lemma_placed(taken, pending, id);
        let (next, done) = placed(taken, pending);
        if done {
            lemma_waiting_dispatched(BackendView { waiting: rest, ..next }, 0, id);
        } else {
            lemma_waiting_dispatched(
                BackendView { waiting: backend.waiting, ..next },
                from + 1,
                id,
            );
        }
    }
}

proof fn lemma_dispatched(backend: BackendView, now: u64, id: u64)
    requires
        sinks_there(backend),
    ensures
        sinks_there(dispatched(backend, now)),
        places(dispatched(backend, now), id) == places(backend, id),
{
    lemma_waiting_expired(backend, now, 0, id);
    lemma_waiting_dispatched(waiting_expired(backend, now, 0), 0, id);
}

proof fn lemma_in_order_has_sinks(backend: BackendView)
    requires
        backend_ok(backend),
    ensures
        sinks_there(backend),
{
    assert forall|i: int| 0 <= i < backend.transfers.len() implies has_sink(
        (#[trigger] backend.transfers[i]).1,
    ) by {
        assert(crate::transfer::transfer_ok(backend.transfers[i].1));
    }
}

/// A request that is submitted gets exactly one place more; no other request is affected.
pub proof fn lemma_submission_is_accounted_for(
    backend: BackendView,
    submitted_id: u64,
    request: RequestView,
    response: PendingResponseView,
    accepted_at: u64,
    now: u64,
    id: u64,
)
    requires
        backend_ok(backend),
    ensures
        places(
            submitted(backend, submitted_id, request, response, accepted_at, now),
            id,
        ) == places(backend, id) + once(submitted_id == id),
{
    lemma_in_order_has_sinks(backend);
    match pending_made(
        backend.limits,
        submitted_id,
        request,
        crate::pending::accepted_deadlines(request.options, accepted_at),
        0,
        ErrorKind::InvalidRequest,
        response,
    ) {
        Err(error) => {
            lemma_reported(
                backend,
                submitted_id,
                crate::pending::pending_failed(response, error),
                id,
            );
        },
        Ok(pending) => {
            lemma_started(backend, pending, now, id);
        },
    }
}

/// The end of a lookup loses no request and reports none twice.
pub proof fn lemma_lookup_is_accounted_for(
    backend: BackendView,
    key: u64,
    outcome: LookupView,
    now: u64,
    id: u64,
)
    requires
        backend_ok(backend),
    ensures
        places(located(backend, key, outcome, now), id) == places(backend, id),
{
    lemma_in_order_has_sinks(backend);
    lemma_located(backend, key, outcome, now, id);
}

proof fn lemma_located(
    backend: BackendView,
    key: u64,
    outcome: LookupView,
    now: u64,
    id: u64,
)
    requires
        sinks_there(backend),
    ensures
        sinks_there(located(backend, key, outcome, now)),
        places(located(backend, key, outcome, now), id) == places(backend, id),
{
    if holds(backend.resolves, key) {
        lemma_position(backend.resolves, key);
        let at = position(backend.resolves, key);
        let pending = found(backend.resolves, key);
        let taken = BackendView { resolves: without_id(backend.resolves, key), ..backend };
        lemma_lookup_removed(backend, at, id);
        match outcome {
            LookupView::Answer(Some(address)) => {
                lemma_connection_begun(taken, pending, address, now, id);
            },
            LookupView::Answer(None) => {
                lemma_given_up(
                    taken,
                    pending,
                    crate::types::transport_error(
                        crate::types::TransportStage::Dns,
                        "the native resolver returned no usable address"@,
                    ),
                    id,
                );
            },
            LookupView::Failed(message) => {
                lemma_given_up(
                    taken,
                    pending,
                    crate::types::transport_error(crate::types::TransportStage::Dns, message),
                    id,
                );
            },
            LookupView::Unavailable => {
                lemma_given_up(
                    taken,
                    pending,
                    crate::types::plain_error(
                        ErrorKind::Unsupported,
                        "the native HTTP proving Engine requires an injected resolver for hostnames"@,
                    ),
                    id,
                );
            },
        }
    }
}

proof fn lemma_connection_begun(
    backend: BackendView,
    pending: PendingView,
    address: Seq<u8>,
    now: u64,
    id: u64,
)
    requires
        sinks_there(backend),
    ensures
        sinks_there(connection_begun(backend, pending, address, now)),
        places(connection_begun(backend, pending, address, now), id) == places(backend, id) + once(
            pending.request_id == id,
        ),
{
    reveal(connection_begun);
    if pending.scheme is Https && !backend.has_tls {
        lemma_given_up(
            backend,
            pending,
            crate::types::plain_error(
                ErrorKind::Unsupported,
                "the selected native proving Engine has no TLS configuration"@,
            ),
            id,
        );
    } else if backend.next_slot == u64::MAX {
        lemma_given_up(
            backend,
            pending,
            crate::types::plain_error(
                ErrorKind::Internal,
                "the native connection identity space is exhausted"@,
            ),
            id,
        );
    } else {
        lemma_transfer_pushed(
            backend,
            backend.next_slot,
            crate::pending::started(
                pending,
                false,
                crate::lookup::opening_tls(pending.scheme),
                crate::deadline::due(now, pending.inactivity_timeout),
                backend.limits,
            ),
            id,
        );
    }
}

proof fn lemma_results_taken(
    engines: EnginesView,
    results: Seq<ResolverResultView>,
    count: nat,
    now: u64,
    id: u64,
)
    requires
        sinks_there(engines.http),
    ensures
        sinks_there(results_taken(engines, results, count, now).http),
        places(results_taken(engines, results, count, now).http, id) == places(engines.http, id),
    decreases count,
{
    if count > 0 {
        lemma_results_taken(engines, results, (count - 1) as nat, now, id);
        let before = results_taken(engines, results, (count - 1) as nat, now);
        if let ResolverResultView::Http { key, outcome } = results[count - 1] {
            lemma_located(before.http, key, outcome, now, id);
        }
    }
}

proof fn lemma_drained(
    engines: EnginesView,
    results: Seq<ResolverResultView>,
    now: u64,
    id: u64,
)
    requires
        sinks_there(engines.http),
    ensures
        sinks_there(lookups_settled(dns_drained(engines, results, now).http, now)),
        places(lookups_settled(dns_drained(engines, results, now).http, now), id) == places(
            engines.http,
            id,
        ),
{
    let expired = EnginesView {
        tcp: tcp_lookups_expired(engines.tcp, now, 0),
        lookups: resolves_expired(engines.lookups, now, 0),
        ..engines
    };
    lemma_results_taken(expired, results, results.len(), now, id);
    let drained = dns_drained(engines, results, now).http;
    lemma_lookups_expired(drained, now, 0, id);
    lemma_dispatched(lookups_expired(drained, now, 0), now, id);
}

/// A whole turn loses no request and reports none twice: neither what is done before events are
/// waited for, nor what the events and the ends of lookups lead to.
pub proof fn lemma_turns_are_accounted_for(
    engines: EnginesView,
    reports: Seq<SocketReport>,
    tcp_reports: Seq<TcpReport>,
    events: Seq<EventView>,
    tcp_events: Seq<TcpEventView>,
    results: Seq<ResolverResultView>,
    now: u64,
    id: u64,
)
    requires
        backend_ok(engines.http),
    ensures
        places(turn_begun(engines, reports, tcp_reports, results, now).http, id) == places(
            engines.http,
            id,
        ),
        places(turn_ended(engines, events, tcp_events, tcp_reports, results, now).http, id)
            == places(engines.http, id),
{
    let backend = engines.http;
    lemma_in_order_has_sinks(backend);
    let (pool, slots) = idle_expired(backend.pool, now, 0);
    lemma_all_closed(BackendView { pool, ..backend }, slots);
    lemma_dispatched(idle_closed(backend, now), now, id);
    let rested = EnginesView {
        http: dispatched(idle_closed(backend, now), now),
        tcp: tcp_all_resumed(engines.tcp, tcp_reports, tcp_reports.len(), now),
        ..engines
    };
    lemma_drained(rested, results, now, id);
    let looked = lookups_settled(dns_drained(rested, results, now).http, now);
    lemma_resumed(looked, reports, reports.len(), now, id);
    lemma_batch(backend, events, events.len(), now, id);
    let after = EnginesView {
        http: batch_processed(backend, events, events.len(), now),
        tcp: tcp_all_resumed(
            tcp_batch(engines.tcp, tcp_events, tcp_events.len(), now),
            tcp_reports,
            tcp_reports.len(),
            now,
        ),
        ..engines
    };
    lemma_drained(after, results, now, id);
}

/// A request that is taken off an idle connection is neither lost nor reported.
pub proof fn lemma_failed_reuse_is_accounted_for(backend: BackendView, slot: u64, id: u64)
    requires
        backend_ok(backend),
    ensures
        places(reuse_undone(backend, slot).0, id) == places(backend, id),
{
    lemma_in_order_has_sinks(backend);
    if reuse_undone(backend, slot).1 {
        let transfer = found(backend.transfers, slot);
        let pending = retried(transfer, transfer.exchange.fallback->0);
        lemma_transfer_removed(backend, slot, id);
        let left = emitted(
            released(
                BackendView {
                    transfers: without_id(backend.transfers, slot),
                    pool: crate::pool::reuse_uncounted(backend.pool),
                    ..backend
                },
                pending.key,
            ),
            EffectView::Close { slot },
        );
        lemma_room_taken(left, pending, id);
        let next = room_taken(left, pending).0;
        lemma_waiting_pushed(next, pending, id);
        assert(places(queued(next, pending), id) == places(
            BackendView { waiting: next.waiting.push(pending), ..next },
            id,
        ));
    }
}

/// A request that is given up leaves its place, and nothing is reported of it; no other request is
/// affected.
pub proof fn lemma_cancellation_is_accounted_for(
    backend: BackendView,
    cancelled_id: u64,
    id: u64,
)
    requires
        places(backend, cancelled_id) == 1,
        occurrences(done_ids(backend.done), cancelled_id) == 0,
    ensures
        places(crate::control::cancelled(backend, cancelled_id), id) == if id == cancelled_id {
            0
        } else {
            places(backend, id)
        },
        crate::control::cancelled(backend, cancelled_id).done == backend.done,
{
    lemma_first_number_occurs(waiting_ids(backend.waiting), cancelled_id);
    let left = crate::control::left_queue(backend, cancelled_id);
    let at = crate::control::first_number(waiting_ids(backend.waiting), cancelled_id);
    if at < backend.waiting.len() {
        lemma_waiting_removed(backend, at, cancelled_id);
        lemma_waiting_removed(backend, at, id);
    }
    lemma_first_number_occurs(lookup_ids(left.resolves), cancelled_id);
    let recalled = crate::control::left_lookup(left, cancelled_id);
    let at = crate::control::first_number(lookup_ids(left.resolves), cancelled_id);
    if at < left.resolves.len() {
        lemma_lookup_removed(left, at, cancelled_id);
        lemma_lookup_removed(left, at, id);
    }
    lemma_first_number_occurs(transfer_ids(recalled.transfers), cancelled_id);
    let at = crate::control::first_number(transfer_ids(recalled.transfers), cancelled_id);
    if at < recalled.transfers.len() {
        let rest = recalled.transfers.remove(at);
        assert(transfer_ids(rest) =~= transfer_ids(recalled.transfers).remove(at));
        lemma_occurrences_remove(transfer_ids(recalled.transfers), at, cancelled_id);
        lemma_occurrences_remove(transfer_ids(recalled.transfers), at, id);
    }
}

/// Where a number is found, it occurs; where it is not found, it does not.
proof fn lemma_first_number_occurs(numbers: Seq<u64>, number: u64)
    ensures
        0 <= crate::control::first_number(numbers, number) <= numbers.len(),
        crate::control::first_number(numbers, number) < numbers.len() ==> numbers[
            crate::control::first_number(numbers, number)
        ] == number && occurrences(numbers, number) > 0,
        crate::control::first_number(numbers, number) == numbers.len() ==> occurrences(
            numbers,
            number,
        ) == 0,
    decreases numbers.len(),
{
    if numbers.len() > 0 {
        lemma_occurrences_remove(numbers, 0, number);
        assert(numbers.remove(0) =~= numbers.skip(1));
        if numbers[0] != number {
            lemma_first_number_occurs(numbers.skip(1), number);
        }
    }
}

} // verus!
