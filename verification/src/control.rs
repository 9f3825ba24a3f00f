//! What the owners of requests do: give them up, read responses while they arrive, and hand over
//! request bodies piece by piece.

use crate::backend::{
    backend_ok, emitted, lemma_resolve_taken, lemma_transfer_added, lemma_transfer_taken, released,
    resolve_keys, transfer_keys, BackendCompletion, BackendView, Effect, EffectView,
    NativeHttpBackend,
};
use crate::dispatch::lemma_waiting_taken;
use crate::engine::closed;
use crate::pending::PendingView;
use crate::pool::{
    all_unleased, grown, idle_keys, lemma_slot_position, marked, tally, ConnectionCounts, KeyView,
    PoolView,
};
use crate::stream::{sink_read, ReadView, SinkView, StreamRead};
use crate::stream_decoder::StreamView;
use crate::table::{lemma_position_at, Queue};
use crate::transfer::{
    HttpTransfer, StreamTransferView, TransferResponse, TransferResponseView, TransferView,
};
use vstd::prelude::*;

verus! {

/// The position of a number, or the length where there is none.
pub open spec fn first_number(numbers: Seq<u64>, number: u64) -> int
    decreases numbers.len(),
{
    if numbers.len() == 0 || numbers[0] == number {
        0
    } else {
        1 + first_number(numbers.skip(1), number)
    }
}

/// Where a number is found.
pub proof fn lemma_first_number_is(numbers: Seq<u64>, number: u64, at: int)
    requires
        0 <= at <= numbers.len(),
        at < numbers.len() ==> numbers[at] == number,
        forall|i: int| 0 <= i < at ==> #[trigger] numbers[i] != number,
    ensures
        first_number(numbers, number) == at,
    decreases at,
{
    if at > 0 {
        assert(numbers[0] != number);
        assert forall|i: int| 0 <= i < at - 1 implies #[trigger] numbers.skip(1)[i] != number by {
            assert(numbers.skip(1)[i] == numbers[i + 1]);
        }
        lemma_first_number_is(numbers.skip(1), number, at - 1);
    }
}

/// The numbers of the requests in the queue.
pub open spec fn waiting_ids(waiting: Seq<PendingView>) -> Seq<u64> {
    waiting.map_values(|pending: PendingView| pending.request_id)
}

/// The numbers of the requests whose host is being looked up.
pub open spec fn lookup_ids(resolves: Seq<(u64, PendingView)>) -> Seq<u64> {
    resolves.map_values(|entry: (u64, PendingView)| entry.1.request_id)
}

/// The numbers of the requests that have a connection.
pub open spec fn transfer_ids(transfers: Seq<(u64, TransferView)>) -> Seq<u64> {
    transfers.map_values(|entry: (u64, TransferView)| entry.1.exchange.request_id)
}

/// A request leaves the queue.
pub open spec fn left_queue(backend: BackendView, id: u64) -> BackendView {
    let at = first_number(waiting_ids(backend.waiting), id);
    if at < backend.waiting.len() {
        BackendView { waiting: backend.waiting.remove(at), ..backend }
    } else {
        backend
    }
}

/// The lookup for a request stops.
pub open spec fn left_lookup(backend: BackendView, id: u64) -> BackendView {
    let at = first_number(lookup_ids(backend.resolves), id);
    if at < backend.resolves.len() {
        let (key, pending) = backend.resolves[at];
        emitted(
            released(
                BackendView { resolves: backend.resolves.remove(at), ..backend },
                pending.key,
            ),
            EffectView::CancelLocate { key },
        )
    } else {
        backend
    }
}

/// The exchange of a request stops.
pub open spec fn left_connection(backend: BackendView, id: u64) -> BackendView {
    let at = first_number(transfer_ids(backend.transfers), id);
    if at < backend.transfers.len() {
        let (slot, transfer) = backend.transfers[at];
        closed(
            BackendView { transfers: backend.transfers.remove(at), ..backend },
            slot,
            transfer.exchange.key,
        )
    } else {
        backend
    }
}

/// A request is given up, wherever it is. Nothing is reported of it.
pub open spec fn cancelled(backend: BackendView, id: u64) -> BackendView {
    left_connection(left_lookup(left_queue(backend, id), id), id)
}

/// Everything is given up, and every connection counts as closed. Numbers that were given out are not
/// given out again.
pub open spec fn shut_down(backend: BackendView) -> BackendView {
    BackendView {
        pool: all_unleased(backend.pool),
        transfers: Seq::empty(),
        resolves: Seq::empty(),
        waiting: Seq::empty(),
        effects: Seq::empty(),
        done: Seq::empty(),
        ..backend
    }
}

/// What became of connections so far, how many are open or being made, how many of them are idle, and
/// how many requests wait for one.
#[derive(Clone, Copy, Debug, PartialEq, Eq, Structural)]
pub struct ConnectionMetrics {
    pub counts: ConnectionCounts,
    pub active: usize,
    pub idle: usize,
    pub waiting: usize,
}

/// The count of closed connections never falls short: as long as the count of opened ones is not full,
/// each of them is open or was counted as closed, once.
pub proof fn lemma_opened_connections_are_open_or_closed(backend: BackendView)
    requires
        backend_ok(backend),
    ensures
        backend.pool.counts.opened < u64::MAX ==> backend.pool.counts.opened
            == backend.pool.counts.closed + backend.pool.leases.len(),
        backend.pool.leases.len() <= backend.pool.counts.peak_active,
        backend.pool.idle.len() <= backend.pool.counts.peak_idle,
{
}

/// After a shutdown each connection that was open counts as closed, once, and nothing is open, idle or
/// waits.
pub proof fn lemma_shutdown_closes_every_connection(backend: BackendView)
    requires
        backend_ok(backend),
    ensures
        shut_down(backend).pool.counts.closed == grown(
            backend.pool.counts.closed,
            backend.pool.leases.len(),
        ),
        backend.pool.counts.opened < u64::MAX ==> shut_down(backend).pool.counts.closed
            == shut_down(backend).pool.counts.opened,
        shut_down(backend).pool.leases.len() == 0,
        shut_down(backend).pool.idle.len() == 0,
        shut_down(backend).waiting.len() == 0,
        shut_down(backend).transfers.len() == 0,
        shut_down(backend).resolves.len() == 0,
{
}

/// The sink that an exchange delivers to.
pub open spec fn transfer_sink(transfer: TransferView) -> Option<SinkView> {
    match transfer.response {
        TransferResponseView::Streaming(stream) => stream.decoder.response,
        TransferResponseView::Buffered(_) => None,
    }
}

/// The exchange with another sink.
pub open spec fn with_sink(transfer: TransferView, sink: SinkView) -> TransferView {
    match transfer.response {
        TransferResponseView::Streaming(stream) => TransferView {
            response: TransferResponseView::Streaming(
                StreamTransferView {
                    decoder: StreamView { response: Some(sink), ..stream.decoder },
                    ..stream
                },
            ),
            ..transfer
        },
        TransferResponseView::Buffered(_) => transfer,
    }
}

/// The reader of a response takes bytes out while the response arrives.
pub open spec fn stream_read(backend: BackendView, id: u64, most: nat) -> (
    BackendView,
    Option<ReadView>,
) {
    let at = first_number(transfer_ids(backend.transfers), id);
    if at < backend.transfers.len() && transfer_sink(backend.transfers[at].1) is Some {
        let (slot, transfer) = backend.transfers[at];
        let (sink, read) = sink_read(transfer_sink(transfer)->0, most);
        (
            BackendView {
                transfers: backend.transfers.remove(at).push((slot, with_sink(transfer, sink))),
                ..backend
            },
            Some(read),
        )
    } else {
        (backend, None)
    }
}

/// The reader of a response goes away while the response arrives.
pub open spec fn stream_closed(backend: BackendView, id: u64) -> (BackendView, bool) {
    let at = first_number(transfer_ids(backend.transfers), id);
    if at < backend.transfers.len() && transfer_sink(backend.transfers[at].1) is Some {
        let (slot, transfer) = backend.transfers[at];
        let sink = SinkView { reader_closed: true, ..transfer_sink(transfer)->0 };
        (
            BackendView {
                transfers: backend.transfers.remove(at).push((slot, with_sink(transfer, sink))),
                ..backend
            },
            true,
        )
    } else {
        (backend, false)
    }
}

impl NativeHttpBackend {
    pub(crate) fn find_waiting(&self, id: u64) -> (result: usize)
        ensures
            result == first_number(waiting_ids(self@.waiting), id),
            result <= self@.waiting.len(),
    {
        let mut at: usize = 0;
        let ghost ids = waiting_ids(self@.waiting);
        while at < self.waiting.len()
            invariant
                at <= self@.waiting.len(),
                ids == waiting_ids(self@.waiting),
                forall|i: int| 0 <= i < at ==> #[trigger] ids[i] != id,
            decreases self@.waiting.len() - at,
        {
            if self.waiting.get(at).request_id == id {
                proof {
                    lemma_first_number_is(ids, id, at as int);
                }
                return at;
            }
            at += 1;
        }
        proof {
            lemma_first_number_is(ids, id, at as int);
        }
        at
    }

    pub(crate) fn find_lookup(&self, id: u64) -> (result: usize)
        ensures
            result == first_number(lookup_ids(self@.resolves), id),
            result <= self@.resolves.len(),
    {
        let mut at: usize = 0;
        let ghost ids = lookup_ids(self@.resolves);
        while at < self.resolves.len()
            invariant
                at <= self@.resolves.len(),
                ids == lookup_ids(self@.resolves),
                forall|i: int| 0 <= i < at ==> #[trigger] ids[i] != id,
            decreases self@.resolves.len() - at,
        {
            if self.resolves.item_at(at).request_id == id {
                proof {
                    lemma_first_number_is(ids, id, at as int);
                }
                return at;
            }
            at += 1;
        }
        proof {
            lemma_first_number_is(ids, id, at as int);
        }
        at
    }

    pub(crate) fn find_transfer(&self, id: u64) -> (result: usize)
        ensures
            result == first_number(transfer_ids(self@.transfers), id),
            result <= self@.transfers.len(),
    {
        let mut at: usize = 0;
        let ghost ids = transfer_ids(self@.transfers);
        while at < self.transfers.len()
            invariant
                at <= self@.transfers.len(),
                ids == transfer_ids(self@.transfers),
                forall|i: int| 0 <= i < at ==> #[trigger] ids[i] != id,
            decreases self@.transfers.len() - at,
        {
            if self.transfers.item_at(at).exchange.request_id == id {
                proof {
                    lemma_first_number_is(ids, id, at as int);
                }
                return at;
            }
            at += 1;
        }
        proof {
            lemma_first_number_is(ids, id, at as int);
        }
        at
    }

    fn leave_lookup(&mut self, id: u64)
        requires
            old(self).wf(),
        ensures
            final(self).wf(),
            final(self)@ == left_lookup(old(self)@, id),
    {
        let at = self.find_lookup(id);
        if at < self.resolves.len() {
            let key = self.resolves.id_at(at);
            proof {
                lemma_position_at(self@.resolves, at as int);
                lemma_resolve_taken(self@, key);
            }
            if let Some(pending) = self.resolves.remove(key) {
                self.release_held(&pending.key);
                self.emit(Effect::CancelLocate { key });
            }
        }
    }

    fn leave_connection(&mut self, id: u64)
        requires
            old(self).wf(),
        ensures
            final(self).wf(),
            final(self)@ == left_connection(old(self)@, id),
    {
        let at = self.find_transfer(id);
        if at < self.transfers.len() {
            let slot = self.transfers.id_at(at);
            proof {
                lemma_position_at(self@.transfers, at as int);
                lemma_transfer_taken(self@, slot);
            }
            if let Some(transfer) = self.transfers.remove(slot) {
                self.release_held(&transfer.exchange.key);
                self.emit(Effect::Close { slot });
            }
        }
    }

    /// Gives up a request, wherever it is.
    pub fn cancel(&mut self, id: u64)
        requires
            old(self).wf(),
        ensures
            final(self).wf(),
            final(self)@ == cancelled(old(self)@, id),
    {
        let at = self.find_waiting(id);
        if at < self.waiting.len() {
            proof {
                lemma_waiting_taken(self@, at as int);
            }
            self.waiting.remove(at);
        }
        self.leave_lookup(id);
        self.leave_connection(id);
    }

    /// Gives up everything. Each connection that is open counts as closed, once.
    pub fn shutdown(&mut self)
        requires
            old(self).wf(),
        ensures
            final(self).wf(),
            final(self)@ == shut_down(old(self)@),
            final(self)@.pool.counts.closed == grown(
                old(self)@.pool.counts.closed,
                old(self)@.pool.leases.len(),
            ),
            old(self)@.pool.counts.opened < u64::MAX ==> final(self)@.pool.counts.closed
                == old(self)@.pool.counts.closed + old(self)@.pool.leases.len(),
            final(self)@.pool.leases.len() == 0,
            final(self)@.pool.idle.len() == 0,
            final(self)@.waiting.len() == 0,
    {
        self.pool.close_connections();
        self.transfers.clear();
        self.resolves.clear();
        self.waiting.clear();
        self.effects.clear();
        self.done.clear();
        proof {
            assert(transfer_keys(self@.transfers) =~= Seq::empty());
            assert(resolve_keys(self@.resolves) =~= Seq::empty());
            assert(idle_keys(self@.pool.idle) =~= Seq::empty());
        }
    }

    /// What became of connections so far, and how many there are.
    pub fn connection_metrics(&self) -> (result: ConnectionMetrics)
        ensures
            result.counts == self@.pool.counts,
            result.active == self@.pool.leases.len(),
            result.idle == self@.pool.idle.len(),
            result.waiting == self@.waiting.len(),
    {
        ConnectionMetrics {
            counts: self.pool.counts,
            active: self.pool.leases.len(),
            idle: self.pool.idle.len(),
            waiting: self.waiting.len(),
        }
    }

    /// Connections are counted.
    pub fn connection_metrics_available(&self) -> (result: bool)
        ensures
            result,
    {
        true
    }

    /// Reports whether idle connections have to be watched though there are no requests.
    pub fn wants_poll_without_requests(&self) -> (result: bool)
        ensures
            result == (self@.pool.idle.len() != 0),
    {
        self.pool.idle.len() != 0
    }

    /// Notes that something arrived on an idle connection, which is then not used again.
    pub fn note_noise(&mut self, slot: u64)
        requires
            old(self).wf(),
        ensures
            final(self).wf(),
            final(self)@ == (BackendView { pool: marked(old(self)@.pool, slot), ..old(self)@ }),
    {
        self.pool.mark_noisy(slot);
        proof {
            lemma_marked_slots(old(self)@.pool, slot);
            assert(idle_keys(self@.pool.idle) =~= idle_keys(old(self)@.pool.idle));
            assert forall|key: KeyView|
                #[trigger] tally(self@.pool.leases, key) == tally(
                    transfer_keys(self@.transfers),
                    key,
                ) + tally(resolve_keys(self@.resolves), key) + tally(
                    idle_keys(self@.pool.idle),
                    key,
                ) + tally(Seq::<KeyView>::empty(), key) by {
                assert(tally(old(self)@.pool.leases, key) == tally(
                    transfer_keys(old(self)@.transfers),
                    key,
                ) + tally(resolve_keys(old(self)@.resolves), key) + tally(
                    idle_keys(old(self)@.pool.idle),
                    key,
                ) + tally(Seq::<KeyView>::empty(), key));
            }
            assert forall|i: int, j: int|
                0 <= i < self@.transfers.len() && 0 <= j < self@.pool.idle.len() implies (
            #[trigger] self@.transfers[i]).0 != (#[trigger] self@.pool.idle[j]).slot by {
                assert(old(self)@.transfers[i].0 != old(self)@.pool.idle[j].slot);
            }
        }
    }

    /// Takes what the socket layer is to do.
    pub fn take_effects(&mut self) -> (result: Queue<Effect>)
        requires
            old(self).wf(),
        ensures
            final(self).wf(),
            result@ == old(self)@.effects,
            final(self)@ == (BackendView { effects: Seq::empty(), ..old(self)@ }),
    {
        let mut effects = Queue::new();
        std::mem::swap(&mut effects, &mut self.effects);
        effects
    }

    /// Takes how requests ended.
    pub fn take_completions(&mut self) -> (result: Queue<BackendCompletion>)
        requires
            old(self).wf(),
        ensures
            final(self).wf(),
            result@ == old(self)@.done,
            final(self)@ == (BackendView { done: Seq::empty(), ..old(self)@ }),
    {
        let mut done = Queue::new();
        std::mem::swap(&mut done, &mut self.done);
        done
    }

    /// Reads from a response that is delivered while it arrives. Once the response has ended, what is
    /// left of it is in its completion.
    pub fn read_stream(&mut self, id: u64, most: usize) -> (result: Option<StreamRead>)
        requires
            old(self).wf(),
        ensures
            final(self).wf(),
            stream_read(old(self)@, id, most as nat) == (
                final(self)@,
                match result {
                    Some(read) => Some(read@),
                    None => None,
                },
            ),
    {
        let at = self.find_transfer(id);
        if at >= self.transfers.len() {
            return None;
        }
        let delivers = match &self.transfers.item_at(at).response {
            TransferResponse::Streaming(stream) => stream.decoder.response.is_some(),
            TransferResponse::Buffered(_) => false,
        };
        if !delivers {
            return None;
        }
        let slot = self.transfers.id_at(at);
        proof {
            lemma_position_at(self@.transfers, at as int);
            lemma_transfer_taken(self@, slot);
        }
        if let Some(transfer) = self.transfers.remove(slot) {
            let mut transfer = transfer;
            let read = read_transfer(&mut transfer, most);
            proof {
                lemma_transfer_added(self@, slot, transfer@);
            }
            self.transfers.insert(slot, transfer);
            return read;
        }
        None
    }

    /// Notes that the reader of a response went away. Nothing more is delivered to it; the exchange
    /// ends when the next bytes arrive. The result says whether there was such a response.
    pub fn close_stream(&mut self, id: u64) -> (result: bool)
        requires
            old(self).wf(),
        ensures
            final(self).wf(),
            stream_closed(old(self)@, id) == (final(self)@, result),
    {
        let at = self.find_transfer(id);
        if at >= self.transfers.len() {
            return false;
        }
        let delivers = match &self.transfers.item_at(at).response {
            TransferResponse::Streaming(stream) => stream.decoder.response.is_some(),
            TransferResponse::Buffered(_) => false,
        };
        if !delivers {
            return false;
        }
        let slot = self.transfers.id_at(at);
        proof {
            lemma_position_at(self@.transfers, at as int);
            lemma_transfer_taken(self@, slot);
        }
        if let Some(transfer) = self.transfers.remove(slot) {
            let mut transfer = transfer;
            close_transfer_reader(&mut transfer);
            proof {
                lemma_transfer_added(self@, slot, transfer@);
            }
            self.transfers.insert(slot, transfer);
        }
        true
    }
}

proof fn lemma_marked_slots(pool: PoolView, slot: u64)
    ensures
        marked(pool, slot).idle.len() == pool.idle.len(),
        marked(pool, slot).leases == pool.leases,
        forall|i: int|
            0 <= i < pool.idle.len() ==> (#[trigger] marked(pool, slot).idle[i]).slot
                == pool.idle[i].slot && marked(pool, slot).idle[i].key == pool.idle[i].key,
{
    lemma_slot_position(pool.idle, slot);
}

/// Reads from the sink of an exchange.
fn read_transfer(transfer: &mut HttpTransfer, most: usize) -> (result: Option<StreamRead>)
    requires
        old(transfer).wf(),
        transfer_sink(old(transfer)@) is Some,
    ensures
        final(transfer).wf(),
        final(transfer)@ == with_sink(
            old(transfer)@,
            sink_read(transfer_sink(old(transfer)@)->0, most as nat).0,
        ),
        final(transfer)@.exchange == old(transfer)@.exchange,
        result matches Some(read) && read@ == sink_read(
            transfer_sink(old(transfer)@)->0,
            most as nat,
        ).1,
{
    match &mut transfer.response {
        TransferResponse::Streaming(stream) => match &mut stream.decoder.response {
            Some(sink) => Some(sink.try_read(most)),
            None => None,
        },
        TransferResponse::Buffered(_) => None,
    }
}

/// Closes the reader's side of the sink of an exchange.
fn close_transfer_reader(transfer: &mut HttpTransfer)
    requires
        old(transfer).wf(),
        transfer_sink(old(transfer)@) is Some,
    ensures
        final(transfer).wf(),
        final(transfer)@ == with_sink(
            old(transfer)@,
            SinkView { reader_closed: true, ..transfer_sink(old(transfer)@)->0 },
        ),
        final(transfer)@.exchange == old(transfer)@.exchange,
{
    if let TransferResponse::Streaming(stream) = &mut transfer.response {
        if let Some(sink) = &mut stream.decoder.response {
            sink.close_reader();
        }
    }
}

} // verus!
