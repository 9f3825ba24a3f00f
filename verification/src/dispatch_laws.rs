//! What holds of every request on its way to a connection: what it waits for, where it goes, and what
//! goes along.

use crate::backend::{BackendView, EffectView};
use crate::config::receive_bound;
use crate::decoder::fresh_decoder;
use crate::dispatch::{
    lookup_begun, pending_started, placed, queued, reuse_begun, room_taken, waiting_expired,
};
use crate::engine::settled;
use crate::events::{event_processed, stream_resumed};
use crate::exchange::ExchangeView;
use crate::lookup::{connection_begun, located, lookups_expired, submitted, LookupView};
use crate::origin::{origin_of, OriginView};
use crate::pending::{
    accepted_deadlines, connection_key, pending_deadline, pending_failed, pending_made,
    pending_upload, started, CompletionView, PendingResponseView, PendingView,
};
use crate::pool::{
    first_key, idle_keys, lemma_first_key_bounds, marked, slot_position, tally, without, IdleView,
    KeyView, PoolView, TlsPhase,
};
use crate::pool_laws::lemma_filter_first;
use crate::request::{serialized, SerializedView};
use crate::step::{event_taken, resumed, EventView, SocketReport};
use crate::stream::SinkEndView;
use crate::table::{found, holds, lemma_position, without_id};
use crate::tcp_laws::falls_due;
use crate::text::{same_ignoring_case, wire};
use crate::transfer::{TransferResponseView, TransferView};
use crate::types::{
    plain_error, timeout_error, transport_error, ErrorKind, ErrorView, HttpLimits, RequestView,
    TimeoutKind, TlsVerification, TransportStage,
};
use crate::upload::NativeUploadView;
use vstd::prelude::*;
use vstd::string::*;

verus! {

/// Two requests can share a connection exactly where their URLs have the same scheme, the same host up
/// to case and the same port, and both check certificates or neither does.
pub proof fn lemma_connections_are_shared_within_an_origin(
    left: OriginView,
    left_check: TlsVerification,
    right: OriginView,
    right_check: TlsVerification,
)
    ensures
        connection_key(left, left_check) == connection_key(right, right_check) <==> left.scheme
            == right.scheme && left.port == right.port && same_ignoring_case(left.host, right.host)
            && left_check == right_check,
{
    let one = connection_key(left, left_check);
    let other = connection_key(right, right_check);
    if one == other {
        assert(one.host.len() == left.host.len());
        assert(other.host.len() == right.host.len());
        assert forall|i: int| 0 <= i < left.host.len() implies crate::text::lower(
            #[trigger] left.host[i],
        ) == crate::text::lower(right.host[i]) by {
            assert(one.host[i] == other.host[i]);
        }
    }
    if left.scheme == right.scheme && left.port == right.port && same_ignoring_case(
        left.host,
        right.host,
    ) && left_check == right_check {
        assert(one.host =~= other.host);
    }
}

/// How many bytes of output may be queued for a request without TLS: its own, and with a streamed body
/// one full queue and the framing of one chunk.
pub open spec fn clear_output(pending: PendingView) -> int {
    let wanted = pending.serialized.bytes.len() + match pending_upload(pending.response) {
        None => 0int,
        Some(body) => body.capacity + 32,
    };
    if wanted <= usize::MAX {
        wanted
    } else {
        usize::MAX as int
    }
}

/// How many bytes a response may take up on the wire: nine heads and a trailer section, the body, and
/// some more for what lies between.
pub open spec fn wire_allowance(limits: HttpLimits) -> int {
    let wanted = limits.header_bytes * 10 + limits.body_bytes + 16384;
    if wanted <= usize::MAX {
        wanted
    } else {
        usize::MAX as int
    }
}

/// The earliest of the deadlines of a request that is not connected.
pub open spec fn is_earliest(deadline: Option<u64>, pending: PendingView) -> bool {
    forall|now: u64|
        (#[trigger] crate::deadline::is_past(deadline, now)) <==> ((pending.connect_deadline is Some
            && pending.connect_deadline->0 <= now) || (pending.total_deadline is Some
            && pending.total_deadline->0 <= now) || (pending.inactivity_deadline is Some
            && pending.inactivity_deadline->0 <= now))
}

/// How much a response may take up on the wire.
pub proof fn lemma_wire_allowance(limits: HttpLimits)
    ensures
        receive_bound(limits) == wire_allowance(limits),
{
    assert(0 <= limits.header_bytes * 10) by (nonlinear_arith);
}

/// A request goes out on the connection to its origin that has been idle longest, if nothing arrived on
/// it: all of its bytes are sent, nothing is looked up, and no other connection is touched.
pub proof fn lemma_idle_connections_are_used_again(backend: BackendView, pending: PendingView, at: int)
    requires
        0 <= at < backend.pool.idle.len(),
        backend.pool.idle[at].key == pending.key,
        !backend.pool.idle[at].noisy,
        forall|i: int| 0 <= i < at ==> (#[trigger] backend.pool.idle[i]).key != pending.key,
    ensures
        ({
            let connection = backend.pool.idle[at];
            let (next, done) = placed(backend, pending);
            &&& done
            &&& next.pool.idle == backend.pool.idle.remove(at)
            &&& next.pool.leases == backend.pool.leases
            &&& next.waiting == backend.waiting
            &&& next.resolves == backend.resolves
            &&& next.transfers.len() == backend.transfers.len() + 1
            &&& next.transfers.last().0 == connection.slot
            &&& next.transfers.last().1.exchange.request_id == pending.request_id
            &&& next.transfers.last().1.exchange.connected
            &&& next.transfers.last().1.exchange.fallback is Some
            &&& next.transfers.last().1.exchange.tls == match connection.tls {
                Some(phase) => Some(
                    TlsPhase { handshaking: phase.handshaking, request_encrypted: false },
                ),
                None => None,
            }
            &&& next.effects.len() == backend.effects.len() + 1
            &&& next.effects.drop_last() == backend.effects
            &&& next.effects.last() matches EffectView::Reuse {
                slot,
                deadline,
                outbound_limit,
                receive_limit,
                bytes,
            } && {
                &&& slot == connection.slot
                &&& bytes == pending.serialized.bytes
                &&& is_earliest(deadline, pending)
                &&& connection.tls is Some ==> outbound_limit is None
                &&& connection.tls is None ==> outbound_limit is Some && outbound_limit->0
                    == clear_output(pending)
                &&& receive_limit == wire_allowance(backend.limits)
            }
        }),
{
    reveal(placed);
    reveal(reuse_begun);
    lemma_wire_allowance(backend.limits);
    let keys = idle_keys(backend.pool.idle);
    lemma_first_key_bounds(keys, pending.key);
    lemma_first_own(backend.pool.idle, pending.key, at);
    let (next, done) = placed(backend, pending);
    assert(next.effects.drop_last() =~= backend.effects);
}

proof fn lemma_first_own(idle: Seq<IdleView>, key: KeyView, at: int)
    requires
        0 <= at <= idle.len(),
        at < idle.len() ==> idle[at].key == key,
        forall|i: int| 0 <= i < at ==> (#[trigger] idle[i]).key != key,
    ensures
        first_key(idle_keys(idle), key) == at,
    decreases idle.len(),
{
    let keys = idle_keys(idle);
    if idle.len() > 0 && at > 0 {
        assert(idle[0].key != key);
        assert(keys.skip(1) =~= idle_keys(idle.skip(1)));
        assert forall|i: int| 0 <= i < at - 1 implies (#[trigger] idle.skip(1)[i]).key != key by {
            assert(idle.skip(1)[i] == idle[i + 1]);
        }
        lemma_first_own(idle.skip(1), key, at - 1);
    }
}

/// An idle connection on which something arrived is not used again: it is closed, and its lease given
/// back before room is sought for a new one.
pub proof fn lemma_noisy_connections_are_not_used(backend: BackendView, pending: PendingView, at: int)
    requires
        0 <= at < backend.pool.idle.len(),
        backend.pool.idle[at].key == pending.key,
        backend.pool.idle[at].noisy,
        forall|i: int| 0 <= i < at ==> (#[trigger] backend.pool.idle[i]).key != pending.key,
    ensures
        !reuse_begun(backend, pending).1,
        reuse_begun(backend, pending).0.effects == backend.effects.push(
            EffectView::Close { slot: backend.pool.idle[at].slot },
        ),
        reuse_begun(backend, pending).0.pool.idle == backend.pool.idle.remove(at),
        reuse_begun(backend, pending).0.pool.leases == without(backend.pool.leases, pending.key),
        reuse_begun(backend, pending).0.transfers == backend.transfers,
{
    reveal(reuse_begun);
    lemma_first_own(backend.pool.idle, pending.key, at);
}

/// Where no connection to the origin is idle and there is room for one, its host is looked up under a
/// new number, and a connection is set aside for it.
pub proof fn lemma_new_connections_start_with_a_lookup(backend: BackendView, pending: PendingView)
    requires
        forall|i: int|
            0 <= i < backend.pool.idle.len() ==> (#[trigger] backend.pool.idle[i]).key
                != pending.key,
        backend.pool.leases.len() + 1 <= backend.pool.limits.global,
        tally(backend.pool.leases, pending.key) + 1 <= backend.pool.limits.per_origin,
        backend.next_resolve_key < u64::MAX,
    ensures
        ({
            let (next, done) = placed(backend, pending);
            &&& done
            &&& next.effects == backend.effects.push(
                EffectView::Locate { key: backend.next_resolve_key, host: pending.host },
            )
            &&& next.resolves == backend.resolves.push((backend.next_resolve_key, pending))
            &&& next.next_resolve_key == backend.next_resolve_key + 1
            &&& next.pool.leases == backend.pool.leases.push(pending.key)
            &&& next.pool.idle == backend.pool.idle
            &&& next.transfers == backend.transfers
            &&& next.waiting == backend.waiting
        }),
{
    reveal(placed);
    reveal(reuse_begun);
    reveal(room_taken);
    reveal(lookup_begun);
    lemma_first_own(backend.pool.idle, pending.key, backend.pool.idle.len() as int);
}

/// An answer leads to a connection to that address, on the port of the URL and under a new number,
/// through TLS exactly for HTTPS. The name of the host, all bytes of the request and its limits go
/// along, and inactivity counts from then.
pub proof fn lemma_answers_lead_to_connections(
    backend: BackendView,
    key: u64,
    address: Seq<u8>,
    now: u64,
)
    requires
        holds(backend.resolves, key),
        found(backend.resolves, key).scheme is Https ==> backend.has_tls,
        backend.next_slot < u64::MAX,
    ensures
        ({
            let pending = found(backend.resolves, key);
            let next = located(backend, key, LookupView::Answer(Some(address)), now);
            let transfer = next.transfers.last().1;
            &&& next.transfers.len() == backend.transfers.len() + 1
            &&& next.transfers.last().0 == backend.next_slot
            &&& next.next_slot == backend.next_slot + 1
            &&& next.resolves == without_id(backend.resolves, key)
            &&& next.pool == backend.pool
            &&& transfer.exchange.request_id == pending.request_id
            &&& transfer.exchange.key == pending.key
            &&& !transfer.exchange.connected
            &&& transfer.exchange.total_deadline == pending.total_deadline
            &&& transfer.exchange.connect_deadline == pending.connect_deadline
            &&& falls_due(transfer.exchange.inactivity_deadline, now, pending.inactivity_timeout)
            &&& transfer.exchange.fallback is None
            &&& pending.scheme is Http ==> transfer.exchange.tls is None
            &&& pending.scheme is Https ==> transfer.exchange.tls == Some(
                TlsPhase { handshaking: true, request_encrypted: false },
            )
            &&& next.effects.len() == backend.effects.len() + 1
            &&& next.effects.drop_last() == backend.effects
            &&& next.effects.last() matches EffectView::Connect {
                slot,
                address: to,
                port,
                host,
                tls,
                deadline,
                outbound_limit,
                receive_limit,
                bytes,
            } && {
                &&& slot == backend.next_slot
                &&& to == address
                &&& port == pending.port
                &&& host == pending.host
                &&& bytes == pending.serialized.bytes
                &&& is_earliest(deadline, pending)
                &&& receive_limit == wire_allowance(backend.limits)
                &&& pending.scheme is Http ==> tls is None && outbound_limit is Some
                    && outbound_limit->0 == clear_output(pending)
                &&& pending.scheme is Https ==> tls == Some(pending.tls_verification)
                    && outbound_limit is None
            }
        }),
{
    reveal(connection_begun);
    lemma_wire_allowance(backend.limits);
    let next = located(backend, key, LookupView::Answer(Some(address)), now);
    assert(next.effects.drop_last() =~= backend.effects);
}

/// How the owner of a request learns that it failed before a connection carried it.
pub open spec fn told_of(response: PendingResponseView, error: ErrorView) -> CompletionView {
    match response {
        PendingResponseView::Buffered => CompletionView::Failed(error),
        PendingResponseView::Streaming { response, .. } => CompletionView::Delivered(
            if response.end is None {
                crate::stream::SinkView { end: Some(SinkEndView::Failed(error)), ..response }
            } else {
                response
            },
        ),
    }
}

/// A lookup without a usable answer ends the request: its owner learns why, and the connection that was
/// set aside is given back.
pub proof fn lemma_failed_lookups_end_requests(
    backend: BackendView,
    key: u64,
    message: Seq<char>,
    now: u64,
)
    requires
        holds(backend.resolves, key),
    ensures
        ({
            let pending = found(backend.resolves, key);
            let gone = BackendView {
                resolves: without_id(backend.resolves, key),
                pool: located(backend, key, LookupView::Unavailable, now).pool,
                ..backend
            };
            let told = |error: ErrorView|
                BackendView {
                    done: backend.done.push((pending.request_id, told_of(pending.response, error))),
                    ..gone
                };
            &&& gone.pool.leases == without(backend.pool.leases, pending.key)
            &&& gone.pool.idle == backend.pool.idle
            &&& located(backend, key, LookupView::Answer(None), now) == told(
                transport_error(
                    TransportStage::Dns,
                    "the native resolver returned no usable address"@,
                ),
            )
            &&& located(backend, key, LookupView::Failed(message), now) == told(
                transport_error(TransportStage::Dns, message),
            )
            &&& located(backend, key, LookupView::Unavailable, now) == told(
                plain_error(
                    ErrorKind::Unsupported,
                    "the native HTTP proving Engine requires an injected resolver for hostnames"@,
                ),
            )
        }),
{
}

/// An answer to a lookup that nobody waits for changes nothing.
pub proof fn lemma_stray_answers_are_ignored(
    backend: BackendView,
    key: u64,
    outcome: LookupView,
    now: u64,
)
    requires
        forall|i: int| 0 <= i < backend.resolves.len() ==> (#[trigger] backend.resolves[i]).0 != key,
    ensures
        located(backend, key, outcome, now) == backend,
{
    lemma_position(backend.resolves, key);
}

/// A request is made ready from its URL and its options: the origin decides where it goes, each timeout
/// counts from the moment that it was accepted, and what cannot be written or has no origin is refused.
pub proof fn lemma_requests_are_made_ready(
    limits: HttpLimits,
    id: u64,
    request: RequestView,
    accepted_at: u64,
    hops: u8,
    kind: ErrorKind,
    response: PendingResponseView,
)
    ensures
        ({
            let framing = match pending_upload(response) {
                Some(body) => Some(body.framing),
                None => None,
            };
            let made = pending_made(
                limits,
                id,
                request,
                accepted_deadlines(request.options, accepted_at),
                hops,
                kind,
                response,
            );
            let written = serialized(request, limits, framing);
            let origin = origin_of(wire(request.url));
            &&& made is Ok <==> written is Ok && origin is Some
            &&& written matches Err(error) ==> made == Err::<PendingView, ErrorView>(error)
            &&& written is Ok && origin is None ==> made == Err::<PendingView, ErrorView>(
                plain_error(kind, "the URL has no usable HTTP origin"@),
            )
            &&& made matches Ok(pending) ==> {
                &&& written == Ok::<SerializedView, ErrorView>(pending.serialized)
                &&& origin == Some(
                    OriginView { scheme: pending.scheme, host: pending.host, port: pending.port },
                )
                &&& pending.request_id == id
                &&& pending.request == request
                &&& pending.redirect_hops == hops
                &&& pending.response == response
                &&& pending.tls_verification == request.options.tls_verification
                &&& pending.key == connection_key(origin->0, request.options.tls_verification)
                &&& pending.body_bearing <==> framing is Some || request.body.len() > 0
                &&& pending.inactivity_timeout == request.options.inactivity_timeout
                &&& falls_due(
                    pending.connect_deadline,
                    accepted_at,
                    request.options.connect_timeout,
                )
                &&& falls_due(pending.total_deadline, accepted_at, request.options.total_timeout)
                &&& falls_due(
                    pending.inactivity_deadline,
                    accepted_at,
                    request.options.inactivity_timeout,
                )
            }
        }),
{
}

/// A request that is refused, or whose deadline has passed before it could start, is answered at once
/// and nothing is asked for; one that finds no room joins the end of the queue.
pub proof fn lemma_late_requests_do_not_start(backend: BackendView, pending: PendingView, now: u64)
    ensures
        pending.total_deadline is Some && pending.total_deadline->0 <= now ==> pending_started(
            backend,
            pending,
            now,
        ) == (BackendView {
            done: backend.done.push(
                (
                    pending.request_id,
                    told_of(
                        pending.response,
                        timeout_error(
                            TimeoutKind::Total,
                            "the native HTTP total request timeout expired"@,
                        ),
                    ),
                ),
            ),
            ..backend
        }),
        !(pending.total_deadline is Some && pending.total_deadline->0 <= now)
            && pending.connect_deadline is Some && pending.connect_deadline->0 <= now
            ==> pending_started(backend, pending, now) == (BackendView {
            done: backend.done.push(
                (
                    pending.request_id,
                    told_of(
                        pending.response,
                        timeout_error(
                            TimeoutKind::Connect,
                            "the native HTTP connection-establishment timeout expired"@,
                        ),
                    ),
                ),
            ),
            ..backend
        }),
        !(pending.total_deadline is Some && pending.total_deadline->0 <= now) && !(
        pending.connect_deadline is Some && pending.connect_deadline->0 <= now)
            && pending.inactivity_deadline is Some && pending.inactivity_deadline->0 <= now
            ==> pending_started(backend, pending, now) == (BackendView {
            done: backend.done.push(
                (
                    pending.request_id,
                    told_of(
                        pending.response,
                        timeout_error(
                            TimeoutKind::Inactivity,
                            "the native HTTP inactivity timeout expired"@,
                        ),
                    ),
                ),
            ),
            ..backend
        }),
        !(pending.total_deadline is Some && pending.total_deadline->0 <= now) && !(
        pending.connect_deadline is Some && pending.connect_deadline->0 <= now) && !(
        pending.inactivity_deadline is Some && pending.inactivity_deadline->0 <= now) ==> {
            let (next, done) = placed(backend, pending);
            &&& done ==> pending_started(backend, pending, now) == next
            &&& !done ==> pending_started(backend, pending, now).waiting == next.waiting.push(
                pending,
            ) && pending_started(backend, pending, now).effects == next.effects
                && pending_started(backend, pending, now).done == next.done
        },
{
}

/// A request in the queue, or whose host is being looked up, has a deadline that has passed.
pub open spec fn is_late(pending: PendingView, now: u64) -> bool {
    (pending.total_deadline is Some && pending.total_deadline->0 <= now) || (
    pending.connect_deadline is Some && pending.connect_deadline->0 <= now) || (
    pending.inactivity_deadline is Some && pending.inactivity_deadline->0 <= now)
}

proof fn lemma_late(pending: PendingView, now: u64)
    ensures
        crate::deadline::is_past(pending_deadline(pending), now) <==> is_late(pending, now),
{
}

proof fn lemma_waiting_expired(backend: BackendView, now: u64, from: nat)
    requires
        from <= backend.waiting.len(),
    ensures
        waiting_expired(backend, now, from).waiting == backend.waiting.take(from as int)
            + backend.waiting.skip(from as int).filter(|pending: PendingView| !is_late(pending, now)),
        waiting_expired(backend, now, from).done.len() == backend.done.len() + backend.waiting.skip(
            from as int,
        ).filter(|pending: PendingView| is_late(pending, now)).len(),
        waiting_expired(backend, now, from).pool == backend.pool,
        waiting_expired(backend, now, from).effects == backend.effects,
    decreases backend.waiting.len() - from,
{
    let on_time = |pending: PendingView| !is_late(pending, now);
    let late = |pending: PendingView| is_late(pending, now);
    let rest = backend.waiting.skip(from as int);
    if from >= backend.waiting.len() {
        reveal(Seq::filter);
        assert(rest =~= Seq::<PendingView>::empty());
        assert(rest.filter(on_time) =~= Seq::<PendingView>::empty());
        assert(rest.filter(late) =~= Seq::<PendingView>::empty());
        assert(backend.waiting.take(from as int) + rest.filter(on_time) =~= backend.waiting);
    } else {
        let first = backend.waiting[from as int];
        lemma_late(first, now);
        lemma_filter_first(rest, on_time);
        lemma_filter_first(rest, late);
        assert(rest[0] == first);
        if is_late(first, now) {
            let left = crate::backend::reported(
                BackendView { waiting: backend.waiting.remove(from as int), ..backend },
                first.request_id,
                pending_failed(
                    first.response,
                    crate::failure::expired(crate::pending::pending_timeout(first, now)),
                ),
            );
            lemma_waiting_expired(left, now, from);
            assert(left.waiting.skip(from as int) =~= rest.skip(1));
            assert(left.waiting.take(from as int) =~= backend.waiting.take(from as int));
        } else {
            lemma_waiting_expired(backend, now, from + 1);
            assert(backend.waiting.skip(from as int + 1) =~= rest.skip(1));
            assert(backend.waiting.take(from as int + 1) + rest.skip(1).filter(on_time)
                =~= backend.waiting.take(from as int) + (seq![first] + rest.skip(1).filter(
                on_time,
            )));
        }
    }
}

/// Exactly the requests in the queue whose deadline has passed leave it, and as many owners are told;
/// the others keep their order.
pub proof fn lemma_only_late_requests_leave_the_queue(backend: BackendView, now: u64)
    ensures
        waiting_expired(backend, now, 0).waiting == backend.waiting.filter(
            |pending: PendingView| !is_late(pending, now),
        ),
        waiting_expired(backend, now, 0).done.len() == backend.done.len() + backend.waiting.filter(
            |pending: PendingView| is_late(pending, now),
        ).len(),
        waiting_expired(backend, now, 0).pool == backend.pool,
        waiting_expired(backend, now, 0).effects == backend.effects,
{
    lemma_waiting_expired(backend, now, 0);
    let kept = backend.waiting.filter(|pending: PendingView| !is_late(pending, now));
    assert(backend.waiting.skip(0) =~= backend.waiting);
    assert(backend.waiting.take(0) + kept =~= kept);
}

proof fn lemma_lookups_expired(backend: BackendView, now: u64, from: nat)
    requires
        from <= backend.resolves.len(),
    ensures
        lookups_expired(backend, now, from).resolves == backend.resolves.take(from as int)
            + backend.resolves.skip(from as int).filter(
            |entry: (u64, PendingView)| !is_late(entry.1, now),
        ),
        lookups_expired(backend, now, from).done.len() == backend.done.len()
            + backend.resolves.skip(from as int).filter(
            |entry: (u64, PendingView)| is_late(entry.1, now),
        ).len(),
        lookups_expired(backend, now, from).effects == backend.effects + backend.resolves.skip(
            from as int,
        ).filter(|entry: (u64, PendingView)| is_late(entry.1, now)).map_values(
            |entry: (u64, PendingView)| EffectView::CancelLocate { key: entry.0 },
        ),
    decreases backend.resolves.len() - from,
{
    let on_time = |entry: (u64, PendingView)| !is_late(entry.1, now);
    let late = |entry: (u64, PendingView)| is_late(entry.1, now);
    let recall = |entry: (u64, PendingView)| EffectView::CancelLocate { key: entry.0 };
    let rest = backend.resolves.skip(from as int);
    if from >= backend.resolves.len() {
        reveal(Seq::filter);
        assert(rest =~= Seq::<(u64, PendingView)>::empty());
        assert(rest.filter(on_time) =~= Seq::<(u64, PendingView)>::empty());
        assert(rest.filter(late) =~= Seq::<(u64, PendingView)>::empty());
        assert(backend.resolves.take(from as int) + rest.filter(on_time) =~= backend.resolves);
        assert(backend.effects + rest.filter(late).map_values(recall) =~= backend.effects);
    } else {
        let first = backend.resolves[from as int];
        lemma_late(first.1, now);
        lemma_filter_first(rest, on_time);
        lemma_filter_first(rest, late);
        assert(rest[0] == first);
        if is_late(first.1, now) {
            let left = crate::lookup::given_up(
                crate::backend::emitted(
                    BackendView { resolves: backend.resolves.remove(from as int), ..backend },
                    EffectView::CancelLocate { key: first.0 },
                ),
                first.1,
                crate::failure::expired(crate::pending::pending_timeout(first.1, now)),
            );
            lemma_lookups_expired(left, now, from);
            assert(left.resolves.skip(from as int) =~= rest.skip(1));
            assert(left.resolves.take(from as int) =~= backend.resolves.take(from as int));
            assert(left.effects + rest.skip(1).filter(late).map_values(recall) =~= backend.effects
                + (seq![first] + rest.skip(1).filter(late)).map_values(recall));
        } else {
            lemma_lookups_expired(backend, now, from + 1);
            assert(backend.resolves.skip(from as int + 1) =~= rest.skip(1));
            assert(backend.resolves.take(from as int + 1) + rest.skip(1).filter(on_time)
                =~= backend.resolves.take(from as int) + (seq![first] + rest.skip(1).filter(
                on_time,
            )));
        }
    }
}

/// Exactly the lookups of requests whose deadline has passed are called off, and as many owners are
/// told.
pub proof fn lemma_only_late_lookups_are_called_off(backend: BackendView, now: u64)
    ensures
        lookups_expired(backend, now, 0).resolves == backend.resolves.filter(
            |entry: (u64, PendingView)| !is_late(entry.1, now),
        ),
        lookups_expired(backend, now, 0).done.len() == backend.done.len() + backend.resolves.filter(
            |entry: (u64, PendingView)| is_late(entry.1, now),
        ).len(),
        lookups_expired(backend, now, 0).effects == backend.effects + backend.resolves.filter(
            |entry: (u64, PendingView)| is_late(entry.1, now),
        ).map_values(|entry: (u64, PendingView)| EffectView::CancelLocate { key: entry.0 }),
{
    lemma_lookups_expired(backend, now, 0);
    let kept = backend.resolves.filter(|entry: (u64, PendingView)| !is_late(entry.1, now));
    assert(backend.resolves.skip(0) =~= backend.resolves);
    assert(backend.resolves.take(0) + kept =~= kept);
}

/// Whatever happens on an idle connection other than that output was written ends it: it is closed and
/// gives its lease back. On a connection that nobody knows, only its end is answered, by closing it.
pub proof fn lemma_idle_connections_stay_silent(
    backend: BackendView,
    event: EventView,
    armed: bool,
    now: u64,
)
    ensures
        ({
            let slot = event.report.slot;
            let at = slot_position(backend.pool.idle, slot);
            let next = event_processed(backend, event, armed, now);
            let written = event.kind is WriteProgress || event.kind is WriteDrained;
            let over = event.kind is PeerClosed || event.kind is Failed || event.kind is SessionFailed;
            &&& at < backend.pool.idle.len() && written ==> next == backend
            &&& at < backend.pool.idle.len() && !written ==> {
                &&& next.effects == backend.effects.push(EffectView::Close { slot })
                &&& next.pool.idle == backend.pool.idle.remove(at)
                &&& next.pool.leases == without(backend.pool.leases, backend.pool.idle[at].key)
                &&& next.done == backend.done
            }
            &&& at >= backend.pool.idle.len() && !holds(backend.transfers, slot) && over ==> next == (
            BackendView { effects: backend.effects.push(EffectView::Close { slot }), ..backend })
            &&& at >= backend.pool.idle.len() && !holds(backend.transfers, slot) && !over ==> next
                == backend
        }),
{
}

/// What happens on a connection that carries an exchange happens to that exchange, and from then on its
/// request is not sent anew.
pub proof fn lemma_events_reach_their_exchange(
    backend: BackendView,
    event: EventView,
    armed: bool,
    now: u64,
)
    requires
        slot_position(backend.pool.idle, event.report.slot) >= backend.pool.idle.len(),
        holds(backend.transfers, event.report.slot),
    ensures
        ({
            let slot = event.report.slot;
            let transfer = found(backend.transfers, slot);
            let reached = TransferView {
                exchange: ExchangeView { fallback: None, ..transfer.exchange },
                ..transfer
            };
            event_processed(backend, event, armed, now) == settled(
                BackendView { transfers: without_id(backend.transfers, slot), ..backend },
                slot,
                event_taken(reached, event, armed, now),
                armed,
                now,
            )
        }),
{
}

/// A look at a connection moves a response on that is delivered piece by piece, once something has
/// happened on the connection; any other exchange waits for an event.
pub proof fn lemma_looks_reach_delivered_responses(
    backend: BackendView,
    report: SocketReport,
    now: u64,
)
    ensures
        ({
            let slot = report.slot;
            let transfer = found(backend.transfers, slot);
            let moves = holds(backend.transfers, slot) && transfer.response is Streaming
                && transfer.exchange.fallback is None;
            &&& !moves ==> stream_resumed(backend, report, now) == backend
            &&& moves ==> stream_resumed(backend, report, now) == settled(
                BackendView { transfers: without_id(backend.transfers, slot), ..backend },
                slot,
                resumed(transfer, report, now),
                true,
                now,
            )
        }),
{
}

/// What an exchange starts with: everything of its request, nothing of its response.
pub proof fn lemma_exchanges_start_afresh(
    pending: PendingView,
    connected: bool,
    tls: Option<TlsPhase>,
    inactivity_deadline: Option<u64>,
    limits: HttpLimits,
)
    ensures
        ({
            let transfer = started(pending, connected, tls, inactivity_deadline, limits);
            let exchange = transfer.exchange;
            &&& exchange.request_id == pending.request_id
            &&& exchange.request == pending.request
            &&& exchange.redirect_hops == pending.redirect_hops
            &&& exchange.key == pending.key
            &&& exchange.body_bearing == pending.body_bearing
            &&& exchange.request_permits_reuse == pending.serialized.permits_reuse
            &&& exchange.connected == connected
            &&& exchange.tls == tls
            &&& exchange.connect_deadline == pending.connect_deadline
            &&& exchange.total_deadline == pending.total_deadline
            &&& exchange.inactivity_timeout == pending.inactivity_timeout
            &&& exchange.inactivity_deadline == inactivity_deadline
            &&& !exchange.inactivity_paused
            &&& !exchange.response_started
            &&& !exchange.request_write_drained
            &&& !exchange.upload_aborted
            &&& exchange.fallback is Some <==> connected
            &&& match pending.response {
                PendingResponseView::Buffered => exchange.upload is None && transfer.response
                    == TransferResponseView::Buffered(
                    fresh_decoder(pending.serialized.response_to_head, limits),
                ),
                PendingResponseView::Streaming { response, upload } => {
                    &&& match upload {
                        None => exchange.upload is None,
                        Some(body) => exchange.upload == Some(
                            NativeUploadView {
                                body,
                                framing: body.framing,
                                producer_finished: false,
                                pending_wire: None,
                            },
                        ),
                    }
                    &&& transfer.response matches TransferResponseView::Streaming(stream) && {
                        &&& stream.plaintext.len() == 0
                        &&& !stream.peer_closed
                        &&& !stream.tls_dirty_eof
                        &&& stream.redirect is None
                        &&& stream.decoder.response == Some(response)
                        &&& stream.decoder.pending_head is None
                        &&& stream.decoder.output is AwaitHead
                        &&& stream.decoder.frame.state is Head
                        &&& stream.decoder.frame.limits == limits
                        &&& stream.decoder.frame.response_to_head
                            == pending.serialized.response_to_head
                        &&& stream.decoder.frame.scratch.len() == 0
                        &&& stream.decoder.frame.informational == 0
                    }
                },
            }
        }),
{
}

/// A request that is accepted is made ready and started; one that cannot be made ready is answered at
/// once, and nothing is asked for.
pub proof fn lemma_accepted_requests_start(
    backend: BackendView,
    id: u64,
    request: RequestView,
    response: PendingResponseView,
    accepted_at: u64,
    now: u64,
)
    ensures
        ({
            let made = pending_made(
                backend.limits,
                id,
                request,
                accepted_deadlines(request.options, accepted_at),
                0,
                ErrorKind::InvalidRequest,
                response,
            );
            &&& made matches Ok(pending) ==> submitted(
                backend,
                id,
                request,
                response,
                accepted_at,
                now,
            ) == pending_started(backend, pending, now)
            &&& made matches Err(error) ==> submitted(
                backend,
                id,
                request,
                response,
                accepted_at,
                now,
            ) == (BackendView { done: backend.done.push((id, told_of(response, error))), ..backend })
        }),
{
}

/// An idle connection on which something arrived is remembered, and no other.
pub proof fn lemma_noise_is_remembered(pool: PoolView, slot: u64, at: int)
    requires
        0 <= at < pool.idle.len(),
        pool.idle[at].slot == slot,
        forall|i: int| 0 <= i < at ==> (#[trigger] pool.idle[i]).slot != slot,
    ensures
        marked(pool, slot).idle.len() == pool.idle.len(),
        marked(pool, slot).idle[at] == (IdleView { noisy: true, ..pool.idle[at] }),
        forall|i: int|
            0 <= i < pool.idle.len() && i != at ==> #[trigger] marked(pool, slot).idle[i]
                == pool.idle[i],
        marked(pool, slot).leases == pool.leases,
{
    crate::pool::lemma_slot_position(pool.idle, slot);
    let there = slot_position(pool.idle, slot);
    if there < at {
        assert(pool.idle[there].slot != slot);
    } else if at < there {
        assert(pool.idle[at].slot != slot);
    }
}

/// Without TLS no connection is made for HTTPS: the request ends with an error that says so, and nothing
/// is asked for.
pub proof fn lemma_https_needs_tls(backend: BackendView, key: u64, address: Seq<u8>, now: u64)
    requires
        holds(backend.resolves, key),
        found(backend.resolves, key).scheme is Https,
        !backend.has_tls,
    ensures
        ({
            let pending = found(backend.resolves, key);
            let next = located(backend, key, LookupView::Answer(Some(address)), now);
            &&& next.effects == backend.effects
            &&& next.transfers == backend.transfers
            &&& next.pool.leases == without(backend.pool.leases, pending.key)
            &&& next.done == backend.done.push(
                (
                    pending.request_id,
                    told_of(
                        pending.response,
                        plain_error(
                            ErrorKind::Unsupported,
                            "the selected native proving Engine has no TLS configuration"@,
                        ),
                    ),
                ),
            )
        }),
{
    reveal(connection_begun);
}

/// When the numbers for lookups or connections have run out, a request ends with an error and gives its
/// connection back; nothing is asked for.
pub proof fn lemma_numbers_can_run_out(
    backend: BackendView,
    pending: PendingView,
    address: Seq<u8>,
    now: u64,
)
    requires
        pending.scheme is Http,
    ensures
        backend.next_resolve_key == u64::MAX ==> ({
            let next = lookup_begun(backend, pending);
            &&& next.effects == backend.effects
            &&& next.resolves == backend.resolves
            &&& next.pool.leases == without(backend.pool.leases, pending.key)
            &&& next.done == backend.done.push(
                (
                    pending.request_id,
                    told_of(
                        pending.response,
                        plain_error(
                            ErrorKind::Internal,
                            "the native resolver request identity space is exhausted"@,
                        ),
                    ),
                ),
            )
        }),
        backend.next_slot == u64::MAX ==> ({
            let next = connection_begun(backend, pending, address, now);
            &&& next.effects == backend.effects
            &&& next.transfers == backend.transfers
            &&& next.pool.leases == without(backend.pool.leases, pending.key)
            &&& next.done == backend.done.push(
                (
                    pending.request_id,
                    told_of(
                        pending.response,
                        plain_error(
                            ErrorKind::Internal,
                            "the native connection identity space is exhausted"@,
                        ),
                    ),
                ),
            )
        }),
{
    reveal(lookup_begun);
    reveal(connection_begun);
}

} // verus!
