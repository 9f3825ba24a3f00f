//! What holds of every request that is given up, read or fed from outside: it is found wherever it is,
//! and nothing else is touched.

use crate::backend::{BackendView, EffectView};
use crate::control::{
    cancelled, first_number, lemma_first_number_is, lookup_ids, stream_closed, stream_read,
    transfer_ids, transfer_sink, waiting_ids, with_sink,
};
use crate::feed::{body_fed, upload_fed, FeedView};
use crate::pending::{PendingResponseView, PendingView};
use crate::pool::without;
use crate::resolver::resolve_cancelled;
use crate::stream::{sink_read, SinkView};
use crate::tcp_events::{tcp_cancelled, tcp_owns};
use crate::transfer::TransferView;
use crate::turn::{engines_cancelled, EnginesView};
use crate::types::{transport_error, ErrorView, TransportStage};
use crate::upload::{UploadEndView, UploadView};
use vstd::prelude::*;
use vstd::string::*;

verus! {

/// No request in the queue has a number.
pub open spec fn does_not_wait(backend: BackendView, id: u64) -> bool {
    forall|i: int| 0 <= i < backend.waiting.len() ==> (#[trigger] backend.waiting[i]).request_id != id
}

/// No request whose host is being looked up has a number.
pub open spec fn is_not_looked_up(backend: BackendView, id: u64) -> bool {
    forall|i: int|
        0 <= i < backend.resolves.len() ==> (#[trigger] backend.resolves[i]).1.request_id != id
}

/// No request that has a connection has a number.
pub open spec fn is_not_carried(backend: BackendView, id: u64) -> bool {
    forall|i: int|
        0 <= i < backend.transfers.len() ==> (#[trigger] backend.transfers[i]).1.exchange.request_id
            != id
}

proof fn lemma_not_waiting(backend: BackendView, id: u64)
    requires
        does_not_wait(backend, id),
    ensures
        first_number(waiting_ids(backend.waiting), id) == backend.waiting.len(),
{
    let ids = waiting_ids(backend.waiting);
    assert forall|i: int| 0 <= i < ids.len() implies #[trigger] ids[i] != id by {
        assert(ids[i] == backend.waiting[i].request_id);
    }
    lemma_first_number_is(ids, id, ids.len() as int);
}

proof fn lemma_not_looked_up(backend: BackendView, id: u64)
    requires
        is_not_looked_up(backend, id),
    ensures
        first_number(lookup_ids(backend.resolves), id) == backend.resolves.len(),
{
    let ids = lookup_ids(backend.resolves);
    assert forall|i: int| 0 <= i < ids.len() implies #[trigger] ids[i] != id by {
        assert(ids[i] == backend.resolves[i].1.request_id);
    }
    lemma_first_number_is(ids, id, ids.len() as int);
}

proof fn lemma_not_carried(backend: BackendView, id: u64)
    requires
        is_not_carried(backend, id),
    ensures
        first_number(transfer_ids(backend.transfers), id) == backend.transfers.len(),
{
    let ids = transfer_ids(backend.transfers);
    assert forall|i: int| 0 <= i < ids.len() implies #[trigger] ids[i] != id by {
        assert(ids[i] == backend.transfers[i].1.exchange.request_id);
    }
    lemma_first_number_is(ids, id, ids.len() as int);
}

proof fn lemma_carried_at(backend: BackendView, id: u64, at: int)
    requires
        0 <= at < backend.transfers.len(),
        backend.transfers[at].1.exchange.request_id == id,
        forall|i: int|
            0 <= i < at ==> (#[trigger] backend.transfers[i]).1.exchange.request_id != id,
    ensures
        first_number(transfer_ids(backend.transfers), id) == at,
{
    let ids = transfer_ids(backend.transfers);
    assert forall|i: int| 0 <= i < at implies #[trigger] ids[i] != id by {
        assert(ids[i] == backend.transfers[i].1.exchange.request_id);
    }
    lemma_first_number_is(ids, id, at);
}

/// A request that nobody knows cannot be given up: nothing changes.
pub proof fn lemma_unknown_requests_are_left_alone(backend: BackendView, id: u64)
    requires
        does_not_wait(backend, id),
        is_not_looked_up(backend, id),
        is_not_carried(backend, id),
    ensures
        cancelled(backend, id) == backend,
{
    lemma_not_waiting(backend, id);
    lemma_not_looked_up(backend, id);
    lemma_not_carried(backend, id);
}

/// A request in the queue that is given up leaves it; nothing is asked for or reported.
pub proof fn lemma_waiting_requests_leave_the_queue(backend: BackendView, id: u64, at: int)
    requires
        0 <= at < backend.waiting.len(),
        backend.waiting[at].request_id == id,
        forall|i: int| 0 <= i < at ==> (#[trigger] backend.waiting[i]).request_id != id,
        is_not_looked_up(backend, id),
        is_not_carried(backend, id),
    ensures
        cancelled(backend, id) == (BackendView { waiting: backend.waiting.remove(at), ..backend }),
{
    let ids = waiting_ids(backend.waiting);
    assert forall|i: int| 0 <= i < at implies #[trigger] ids[i] != id by {
        assert(ids[i] == backend.waiting[i].request_id);
    }
    lemma_first_number_is(ids, id, at);
    lemma_not_looked_up(backend, id);
    lemma_not_carried(backend, id);
}

/// A request that is given up while its host is looked up calls the lookup off and gives its connection
/// back; nothing is reported.
pub proof fn lemma_looked_up_requests_are_called_off(backend: BackendView, id: u64, at: int)
    requires
        0 <= at < backend.resolves.len(),
        backend.resolves[at].1.request_id == id,
        forall|i: int| 0 <= i < at ==> (#[trigger] backend.resolves[i]).1.request_id != id,
        does_not_wait(backend, id),
        is_not_carried(backend, id),
    ensures
        ({
            let next = cancelled(backend, id);
            let (key, pending) = backend.resolves[at];
            &&& next.resolves == backend.resolves.remove(at)
            &&& next.effects == backend.effects.push(EffectView::CancelLocate { key })
            &&& next.pool.leases == without(backend.pool.leases, pending.key)
            &&& next.pool.idle == backend.pool.idle
            &&& next.done == backend.done
            &&& next.waiting == backend.waiting
            &&& next.transfers == backend.transfers
        }),
{
    let ids = lookup_ids(backend.resolves);
    assert forall|i: int| 0 <= i < at implies #[trigger] ids[i] != id by {
        assert(ids[i] == backend.resolves[i].1.request_id);
    }
    lemma_first_number_is(ids, id, at);
    lemma_not_waiting(backend, id);
    lemma_not_carried(backend, id);
}

/// A request that is given up while a connection carries it closes the connection and gives it back;
/// nothing is reported.
pub proof fn lemma_carried_requests_are_cut_off(backend: BackendView, id: u64, at: int)
    requires
        0 <= at < backend.transfers.len(),
        backend.transfers[at].1.exchange.request_id == id,
        forall|i: int|
            0 <= i < at ==> (#[trigger] backend.transfers[i]).1.exchange.request_id != id,
        does_not_wait(backend, id),
        is_not_looked_up(backend, id),
    ensures
        ({
            let next = cancelled(backend, id);
            let (slot, transfer) = backend.transfers[at];
            &&& next.transfers == backend.transfers.remove(at)
            &&& next.effects == backend.effects.push(EffectView::Close { slot })
            &&& next.pool.leases == without(backend.pool.leases, transfer.exchange.key)
            &&& next.pool.idle == backend.pool.idle
            &&& next.done == backend.done
            &&& next.waiting == backend.waiting
            &&& next.resolves == backend.resolves
        }),
{
    lemma_carried_at(backend, id, at);
    lemma_not_waiting(backend, id);
    lemma_not_looked_up(backend, id);
}

/// A reader reads from the response that is delivered under its number, and from no other; a response
/// held in memory cannot be read so.
pub proof fn lemma_readers_read_their_own_response(
    backend: BackendView,
    id: u64,
    at: int,
    sink: SinkView,
    most: nat,
)
    requires
        0 <= at < backend.transfers.len(),
        backend.transfers[at].1.exchange.request_id == id,
        forall|i: int|
            0 <= i < at ==> (#[trigger] backend.transfers[i]).1.exchange.request_id != id,
    ensures
        transfer_sink(backend.transfers[at].1) == Some(sink) ==> {
            let (slot, transfer) = backend.transfers[at];
            &&& stream_read(backend, id, most).1 == Some(sink_read(sink, most).1)
            &&& stream_read(backend, id, most).0 == (BackendView {
                transfers: backend.transfers.remove(at).push(
                    (slot, with_sink(transfer, sink_read(sink, most).0)),
                ),
                ..backend
            })
            &&& stream_closed(backend, id).1
            &&& stream_closed(backend, id).0 == (BackendView {
                transfers: backend.transfers.remove(at).push(
                    (slot, with_sink(transfer, SinkView { reader_closed: true, ..sink })),
                ),
                ..backend
            })
        },
        transfer_sink(backend.transfers[at].1) is None ==> stream_read(backend, id, most)
            == (backend, None::<crate::stream::ReadView>) && stream_closed(backend, id)
            == (backend, false),
{
    lemma_carried_at(backend, id, at);
}

/// A chunk is taken exactly while the producer may go on, the queue has room for it and an announced
/// length is not exceeded; it is then the last in the queue, and counted. An empty one leaves no trace.
pub proof fn lemma_chunks_are_taken_while_there_is_room(body: UploadView, bytes: Seq<u8>)
    requires
        body.queued <= body.capacity,
    ensures
        ({
            let (next, taken) = body_fed(body, FeedView::Chunk(bytes));
            &&& taken <==> !body.closed && body.end is Open && body.queued + bytes.len()
                <= body.capacity && (body.framing is Fixed ==> bytes.len() <= body.remaining)
            &&& !taken ==> next == body
            &&& taken ==> {
                &&& bytes.len() > 0 ==> next.chunks == body.chunks.push(bytes)
                &&& bytes.len() == 0 ==> next.chunks == body.chunks
                &&& next.queued == body.queued + bytes.len()
                &&& body.framing is Fixed ==> next.remaining == body.remaining - bytes.len()
                &&& body.framing is Chunked ==> next.remaining == body.remaining
                &&& next.end == body.end
                &&& next.capacity == body.capacity
                &&& next.framing == body.framing
            }
        }),
{
}

/// A body ends as its producer says, once: well where nothing of an announced length is missing, with an
/// error where something is or where the producer failed.
pub proof fn lemma_bodies_end_once(body: UploadView, error: ErrorView)
    ensures
        ({
            let (finished, well) = body_fed(body, FeedView::Finished);
            let (failed, noted) = body_fed(body, FeedView::Failed(error));
            let short = body.framing is Fixed && body.remaining > 0;
            &&& !(body.end is Open) ==> finished == body && failed == body && !well && !noted
            &&& body.end is Open && !short ==> finished.end is Finished && well
            &&& body.end is Open && short ==> !well && finished.end == UploadEndView::Failed(
                transport_error(
                    TransportStage::Send,
                    "the streamed upload body ended before its announced length"@,
                ),
            )
            &&& body.end is Open ==> failed.end == UploadEndView::Failed(error) && noted
            &&& finished.chunks == body.chunks
            &&& failed.chunks == body.chunks
        }),
{
}

/// What a producer hands over reaches the body of its own request, while a connection carries it.
pub proof fn lemma_producers_feed_their_own_body(
    backend: BackendView,
    id: u64,
    at: int,
    feed: FeedView,
)
    requires
        0 <= at < backend.transfers.len(),
        backend.transfers[at].1.exchange.request_id == id,
        forall|i: int|
            0 <= i < at ==> (#[trigger] backend.transfers[i]).1.exchange.request_id != id,
        backend.transfers[at].1.exchange.upload is Some,
    ensures
        ({
            let (next, taken) = upload_fed(backend, id, feed);
            let before = backend.transfers[at].1.exchange.upload->0;
            let (slot, transfer) = next.transfers.last();
            &&& slot == backend.transfers[at].0
            &&& next.transfers.drop_last() == backend.transfers.remove(at)
            &&& transfer.exchange.upload is Some
            &&& (transfer.exchange.upload->0.body, taken) == body_fed(before.body, feed)
            &&& transfer.exchange.upload->0.pending_wire == before.pending_wire
            &&& transfer.exchange.upload->0.producer_finished == before.producer_finished
            &&& next.effects == backend.effects
            &&& next.done == backend.done
        }),
{
    lemma_carried_at(backend, id, at);
    let (next, taken) = upload_fed(backend, id, feed);
    assert(next.transfers.drop_last() =~= backend.transfers.remove(at));
}

/// What a producer hands over reaches the body of its own request while it waits for a connection, and
/// leaves it where it stands in the queue.
pub proof fn lemma_producers_feed_waiting_bodies(
    backend: BackendView,
    id: u64,
    at: int,
    feed: FeedView,
    sink: SinkView,
    body: UploadView,
)
    requires
        is_not_carried(backend, id),
        is_not_looked_up(backend, id),
        0 <= at < backend.waiting.len(),
        backend.waiting[at].request_id == id,
        forall|i: int| 0 <= i < at ==> (#[trigger] backend.waiting[i]).request_id != id,
        backend.waiting[at].response == (PendingResponseView::Streaming {
            response: sink,
            upload: Some(body),
        }),
    ensures
        ({
            let (next, taken) = upload_fed(backend, id, feed);
            &&& taken == body_fed(body, feed).1
            &&& next.waiting == backend.waiting.update(
                at,
                PendingView {
                    response: PendingResponseView::Streaming {
                        response: sink,
                        upload: Some(body_fed(body, feed).0),
                    },
                    ..backend.waiting[at]
                },
            )
        }),
{
    let ids = waiting_ids(backend.waiting);
    assert forall|i: int| 0 <= i < at implies #[trigger] ids[i] != id by {
        assert(ids[i] == backend.waiting[i].request_id);
    }
    lemma_first_number_is(ids, id, at);
    lemma_not_looked_up(backend, id);
    lemma_not_carried(backend, id);
    let (next, taken) = upload_fed(backend, id, feed);
    let fed = PendingView {
        response: PendingResponseView::Streaming {
            response: sink,
            upload: Some(body_fed(body, feed).0),
        },
        ..backend.waiting[at]
    };
    assert(next.waiting =~= backend.waiting.update(at, fed));
}

/// What belongs to a TCP connection is given up there, and anything else among requests and lookups.
pub proof fn lemma_each_number_is_given_up_where_it_belongs(engines: EnginesView, id: u64)
    ensures
        tcp_owns(engines.tcp, id) ==> engines_cancelled(engines, id) == (EnginesView {
            tcp: tcp_cancelled(engines.tcp, id),
            ..engines
        }),
        !tcp_owns(engines.tcp, id) ==> engines_cancelled(engines, id).tcp == engines.tcp
            && engines_cancelled(engines, id).http == cancelled(engines.http, id)
            && engines_cancelled(engines, id).lookups == resolve_cancelled(engines.lookups, id),
{
}

/// The reader of a response is found where it was put, and only a response that is delivered piece by
/// piece has one.
pub proof fn lemma_readers_stay_with_their_response(transfer: TransferView, sink: SinkView)
    ensures
        transfer.response is Buffered ==> transfer_sink(transfer) is None && with_sink(
            transfer,
            sink,
        ) == transfer,
        transfer.response is Streaming ==> transfer_sink(with_sink(transfer, sink)) == Some(sink),
        with_sink(transfer, sink).exchange == transfer.exchange,
{
}

/// What a producer hands over reaches the body of its own request while its host is looked up.
pub proof fn lemma_producers_feed_looked_up_bodies(
    backend: BackendView,
    id: u64,
    at: int,
    feed: FeedView,
    sink: SinkView,
    body: UploadView,
)
    requires
        is_not_carried(backend, id),
        0 <= at < backend.resolves.len(),
        backend.resolves[at].1.request_id == id,
        forall|i: int| 0 <= i < at ==> (#[trigger] backend.resolves[i]).1.request_id != id,
        backend.resolves[at].1.response == (PendingResponseView::Streaming {
            response: sink,
            upload: Some(body),
        }),
    ensures
        ({
            let (next, taken) = upload_fed(backend, id, feed);
            let (key, pending) = backend.resolves[at];
            &&& taken == body_fed(body, feed).1
            &&& next.resolves == backend.resolves.remove(at).push(
                (
                    key,
                    PendingView {
                        response: PendingResponseView::Streaming {
                            response: sink,
                            upload: Some(body_fed(body, feed).0),
                        },
                        ..pending
                    },
                ),
            )
        }),
{
    let ids = lookup_ids(backend.resolves);
    assert forall|i: int| 0 <= i < at implies #[trigger] ids[i] != id by {
        assert(ids[i] == backend.resolves[i].1.request_id);
    }
    lemma_first_number_is(ids, id, at);
    lemma_not_carried(backend, id);
}

/// What is handed over for a request that nobody knows is not taken.
pub proof fn lemma_strangers_feed_nobody(backend: BackendView, id: u64, feed: FeedView)
    requires
        does_not_wait(backend, id),
        is_not_looked_up(backend, id),
        is_not_carried(backend, id),
    ensures
        upload_fed(backend, id, feed) == (backend, false),
{
    lemma_not_waiting(backend, id);
    lemma_not_looked_up(backend, id);
    lemma_not_carried(backend, id);
}

/// Nobody can read a response that is not carried.
pub proof fn lemma_strangers_read_nothing(backend: BackendView, id: u64, most: nat)
    requires
        is_not_carried(backend, id),
    ensures
        stream_read(backend, id, most) == (backend, None::<crate::stream::ReadView>),
        stream_closed(backend, id) == (backend, false),
{
    lemma_not_carried(backend, id);
}

} // verus!
