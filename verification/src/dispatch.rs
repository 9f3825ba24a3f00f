//! How requests get their connections: an idle one, a new one, or a place in the queue.

use crate::backend::{
    backend_holds, backend_ok, emitted, lemma_idle_taken, lemma_reserved, lemma_resolve_added,
    lemma_room_made, lemma_transfer_added, lemma_transfer_taken, limit_view, released, reported,
    BackendView, Effect, EffectView, NativeHttpBackend,
};
use crate::config::receive_bound;
use crate::deadline::{has_passed, is_past};
use crate::failure::{expired, expired_error};
use crate::pending::{
    pending_deadline, pending_failed, pending_response_ok, pending_timeout, pending_upload, retried,
    retry_transfer, start_transfer, started, PendingResolve, PendingView,
};
use crate::pool::{
    first_key, idle_keys, leased, lemma_room_is_real, lemma_tally_positive, reuse_counted,
    reuse_uncounted, room_made, wait_counted, KeyView, PoolView, TlsPhase,
};
use crate::table::{found, holds, lemma_position, without_id};
use crate::types::{copy_bytes, plain_error, Error, ErrorKind, ErrorView};
use crate::upload::{cleartext_outbound_limit, outbound_bound};
use vstd::prelude::*;
use vstd::string::*;

verus! {

/// What a TLS session does when it gets another request.
pub open spec fn reused_tls(tls: Option<TlsPhase>) -> Option<TlsPhase> {
    match tls {
        Some(phase) => Some(TlsPhase { request_encrypted: false, ..phase }),
        None => None,
    }
}

/// How much output may be queued for a request that waits, where it does not go through TLS.
pub open spec fn pending_outbound(pending: PendingView, secure: bool) -> Option<nat> {
    if secure {
        None
    } else {
        Some(
            outbound_bound(
                pending.serialized.bytes.len(),
                match pending_upload(pending.response) {
                    Some(body) => Some(body.capacity),
                    None => None,
                },
            ),
        )
    }
}

/// How much output may be queued for a request that waits, where it does not go through TLS.
pub fn outbound_limit_of(pending: &PendingResolve, secure: bool) -> (result: Option<usize>)
    ensures
        limit_view(result) == pending_outbound(pending@, secure),
{
    if secure {
        None
    } else {
        Some(cleartext_outbound_limit(&pending.serialized, pending.response.upload()))
    }
}

/// A request is sent on the oldest idle connection to its origin. A connection on which something
/// arrived is closed instead; the request then has to look elsewhere.
#[verifier::opaque]
pub open spec fn reuse_begun(backend: BackendView, pending: PendingView) -> (BackendView, bool) {
    let at = first_key(idle_keys(backend.pool.idle), pending.key);
    if at >= backend.pool.idle.len() {
        (backend, false)
    } else {
        let connection = backend.pool.idle[at];
        let taken = BackendView {
            pool: PoolView { idle: backend.pool.idle.remove(at), ..backend.pool },
            ..backend
        };
        if connection.noisy {
            (
                emitted(
                    released(taken, pending.key),
                    EffectView::Close { slot: connection.slot },
                ),
                false,
            )
        } else {
            let transfer = started(
                pending,
                true,
                reused_tls(connection.tls),
                pending.inactivity_deadline,
                backend.limits,
            );
            (
                emitted(
                    BackendView {
                        transfers: backend.transfers.push((connection.slot, transfer)),
                        pool: reuse_counted(taken.pool),
                        ..taken
                    },
                    EffectView::Reuse {
                        slot: connection.slot,
                        deadline: pending_deadline(pending),
                        outbound_limit: pending_outbound(pending, connection.tls is Some),
                        receive_limit: receive_bound(backend.limits),
                        bytes: pending.serialized.bytes,
                    },
                ),
                true,
            )
        }
    }
}

/// Connections are closed.
pub open spec fn all_closed(backend: BackendView, slots: Seq<u64>) -> BackendView
    decreases slots.len(),
{
    if slots.len() == 0 {
        backend
    } else {
        emitted(all_closed(backend, slots.drop_last()), EffectView::Close { slot: slots.last() })
    }
}

/// No more lookups can be told apart.
pub open spec fn lookups_exhausted() -> ErrorView {
    plain_error(
        ErrorKind::Internal,
        "the native resolver request identity space is exhausted"@,
    )
}

/// A request with a lease looks for the address of its host.
#[verifier::opaque]
pub open spec fn lookup_begun(backend: BackendView, pending: PendingView) -> BackendView {
    if backend.next_resolve_key == u64::MAX {
        reported(
            released(backend, pending.key),
            pending.request_id,
            pending_failed(pending.response, lookups_exhausted()),
        )
    } else {
        emitted(
            BackendView {
                next_resolve_key: (backend.next_resolve_key + 1) as u64,
                resolves: backend.resolves.push((backend.next_resolve_key, pending)),
                ..backend
            },
            EffectView::Locate { key: backend.next_resolve_key, host: pending.host },
        )
    }
}

/// A request makes room for a new connection, and takes it where there is some.
#[verifier::opaque]
pub open spec fn room_taken(backend: BackendView, pending: PendingView) -> (BackendView, bool) {
    let made = room_made(backend.pool, pending.key);
    let roomy = all_closed(BackendView { pool: made.pool, ..backend }, made.dropped);
    if made.room {
        let with_lease = BackendView {
            pool: leased(made.pool, pending.key),
            ..roomy
        };
        (lookup_begun(with_lease, pending), true)
    } else {
        (roomy, false)
    }
}

/// A request gets a connection, an idle one first, where it can.
#[verifier::opaque]
pub open spec fn placed(backend: BackendView, pending: PendingView) -> (BackendView, bool) {
    let (next, reused) = reuse_begun(backend, pending);
    if reused {
        (next, true)
    } else {
        room_taken(next, pending)
    }
}

/// A request joins the queue.
pub open spec fn queued(backend: BackendView, pending: PendingView) -> BackendView {
    BackendView {
        pool: wait_counted(backend.pool, backend.waiting.len() + 1),
        waiting: backend.waiting.push(pending),
        ..backend
    }
}

/// A request that was put on an idle connection, on which nothing has happened, is taken off it. The
/// connection is closed, and the request gets a new one.
pub open spec fn reuse_undone(backend: BackendView, slot: u64) -> (BackendView, bool) {
    if holds(backend.transfers, slot) && found(
        backend.transfers,
        slot,
    ).exchange.fallback is Some {
        let transfer = found(backend.transfers, slot);
        let pending = retried(transfer, transfer.exchange.fallback->0);
        let left = emitted(
            released(
                BackendView {
                    transfers: without_id(backend.transfers, slot),
                    pool: reuse_uncounted(backend.pool),
                    ..backend
                },
                pending.key,
            ),
            EffectView::Close { slot },
        );
        let (next, done) = room_taken(left, pending);
        (
            if done {
                next
            } else {
                queued(next, pending)
            },
            true,
        )
    } else {
        (backend, false)
    }
}

/// A request starts, waits, or is too late.
pub open spec fn pending_started(backend: BackendView, pending: PendingView, now: u64) -> BackendView {
    if is_past(pending_deadline(pending), now) {
        reported(
            backend,
            pending.request_id,
            pending_failed(pending.response, expired(pending_timeout(pending, now))),
        )
    } else {
        let (next, done) = placed(backend, pending);
        if done {
            next
        } else {
            queued(next, pending)
        }
    }
}

/// Closing connections asks for nothing else.
pub proof fn lemma_all_closed(backend: BackendView, slots: Seq<u64>)
    ensures
        all_closed(backend, slots) == (BackendView {
            effects: all_closed(backend, slots).effects,
            ..backend
        }),
    decreases slots.len(),
{
    if slots.len() > 0 {
        lemma_all_closed(backend, slots.drop_last());
    }
}

impl NativeHttpBackend {
    /// Tries to send a request on an idle connection. A request that could not be sent comes back.
    pub fn try_begin_reused(&mut self, pending: PendingResolve) -> (result: Option<PendingResolve>)
        requires
            old(self).wf(),
            pending.wf(),
        ensures
            final(self).wf(),
            reuse_begun(old(self)@, pending@) == (final(self)@, result is None),
            result matches Some(returned) ==> returned == pending,
            final(self)@.waiting == old(self)@.waiting,
    {
        reveal(reuse_begun);
        let idle = match self.pool.take_idle(&pending.key) {
            Some(idle) => idle,
            None => {
                proof {
                    lemma_tally_positive(idle_keys(self@.pool.idle), pending@.key);
                }
                return Some(pending);
            },
        };
        proof {
            crate::pool::lemma_first_key_bounds(idle_keys(old(self)@.pool.idle), pending@.key);
            lemma_idle_taken(
                old(self)@,
                first_key(idle_keys(old(self)@.pool.idle), pending@.key),
                self@.pool,
            );
        }
        let slot = idle.slot;
        if idle.noisy {
            self.release_held(&pending.key);
            self.emit(Effect::Close { slot });
            return Some(pending);
        }
        let deadline = pending.next_deadline();
        let outbound_limit = outbound_limit_of(&pending, idle.tls.is_some());
        let receive_limit = self.limits.reactor_receive_limit();
        let inactivity = pending.inactivity_deadline;
        let tls = match idle.tls {
            Some(phase) => Some(
                TlsPhase { handshaking: phase.handshaking, request_encrypted: false },
            ),
            None => None,
        };
        let (transfer, bytes) = start_transfer(pending, true, tls, inactivity, self.limits);
        self.pool.count_reuse();
        proof {
            lemma_transfer_added(self@, slot, transfer@);
        }
        self.transfers.insert(slot, transfer);
        self.emit(Effect::Reuse { slot, deadline, outbound_limit, receive_limit, bytes });
        None
    }

    pub(crate) fn close_all(&mut self, slots: &Vec<u64>)
        ensures
            final(self)@ == all_closed(old(self)@, slots@),
    {
        let mut i: usize = 0;
        assert(slots@.take(0) =~= Seq::empty());
        while i < slots.len()
            invariant
                i <= slots@.len(),
                self@ == all_closed(old(self)@, slots@.take(i as int)),
            decreases slots@.len() - i,
        {
            assert(slots@.take(i + 1).drop_last() =~= slots@.take(i as int));
            self.emit(Effect::Close { slot: slots[i] });
            i += 1;
        }
        assert(slots@.take(i as int) =~= slots@);
    }

    /// The number of the next lookup.
    pub fn next_resolve_key(&mut self) -> (result: Result<u64, Error>)
        ensures
            match result {
                Ok(key) => {
                    &&& old(self)@.next_resolve_key < u64::MAX
                    &&& key == old(self)@.next_resolve_key
                    &&& final(self)@ == (BackendView {
                        next_resolve_key: (key + 1) as u64,
                        ..old(self)@
                    })
                },
                Err(error) => {
                    &&& old(self)@.next_resolve_key == u64::MAX
                    &&& error@ == lookups_exhausted()
                    &&& final(self)@ == old(self)@
                },
            },
    {
        if self.next_resolve_key == u64::MAX {
            return Err(
                Error::new(
                    ErrorKind::Internal,
                    "the native resolver request identity space is exhausted",
                ),
            );
        }
        let key = self.next_resolve_key;
        self.next_resolve_key = key + 1;
        Ok(key)
    }

    /// Starts to look for the address of the host of a request that has a lease.
    fn start_reserved(&mut self, pending: PendingResolve)
        requires
            backend_holds(old(self)@, seq![pending@.key]),
            pending.wf(),
        ensures
            final(self).wf(),
            final(self)@ == lookup_begun(old(self)@, pending@),
            final(self)@.waiting == old(self)@.waiting,
    {
        reveal(lookup_begun);
        let key = match self.next_resolve_key() {
            Ok(key) => key,
            Err(error) => {
                self.release_held(&pending.key);
                let id = pending.request_id;
                let completion = pending.fail(error);
                self.report(id, completion);
                return;
            },
        };
        let host = copy_bytes(pending.host.as_slice());
        proof {
            lemma_fresh_lookup(old(self)@, self@, pending@.key);
            lemma_resolve_added(self@, key, pending@);
        }
        self.resolves.insert(key, pending);
        self.emit(Effect::Locate { key, host });
    }

    fn take_room(&mut self, pending: PendingResolve) -> (result: Option<PendingResolve>)
        requires
            old(self).wf(),
            pending.wf(),
        ensures
            final(self).wf(),
            room_taken(old(self)@, pending@) == (final(self)@, result is None),
            result matches Some(returned) ==> returned == pending,
            final(self)@.waiting == old(self)@.waiting,
    {
        reveal(room_taken);
        proof {
            lemma_room_made(self@, pending@.key);
            lemma_room_is_real(self@.pool, pending@.key);
        }
        let (room, evicted) = self.pool.make_connection_capacity(&pending.key);
        let ghost roomy = self@;
        self.close_all(&evicted);
        proof {
            lemma_all_closed(roomy, evicted@);
        }
        if !room {
            return Some(pending);
        }
        let ghost closed = self@;
        let reserved = self.pool.reserve_connection(&pending.key);
        proof {
            lemma_reserved(closed, pending@.key, self@.pool);
        }
        self.start_reserved(pending);
        None
    }

    /// Gets a connection for a request. A request that has to wait comes back.
    pub(crate) fn place(&mut self, pending: PendingResolve) -> (result: Option<PendingResolve>)
        requires
            old(self).wf(),
            pending.wf(),
        ensures
            final(self).wf(),
            placed(old(self)@, pending@) == (final(self)@, result is None),
            result matches Some(returned) ==> returned == pending,
            final(self)@.waiting == old(self)@.waiting,
    {
        reveal(placed);
        match self.try_begin_reused(pending) {
            Some(pending) => self.take_room(pending),
            None => None,
        }
    }

    /// Starts a request, or lets it wait. One that is too late ends at once.
    pub fn start_pending(&mut self, pending: PendingResolve, now: u64)
        requires
            old(self).wf(),
            pending.wf(),
        ensures
            final(self).wf(),
            final(self)@ == pending_started(old(self)@, pending@, now),
    {
        if has_passed(pending.next_deadline(), now) {
            let error = expired_error(pending.expired_timeout(now));
            let id = pending.request_id;
            let completion = pending.fail(error);
            self.report(id, completion);
            return;
        }
        if let Some(pending) = self.place(pending) {
            self.join_queue(pending);
        }
    }

    fn join_queue(&mut self, pending: PendingResolve)
        requires
            old(self).wf(),
            pending.wf(),
        ensures
            final(self).wf(),
            final(self)@ == queued(old(self)@, pending@),
    {
        self.waiting.push(pending);
        self.pool.count_waiting(self.waiting.len());
    }

    /// Takes back that a request was put on an idle connection, where the socket layer could not even
    /// begin it: the connection is closed, and the same request gets a new one. Once anything has
    /// happened on the connection, or where it was new, nothing is done; the result says which.
    pub fn reuse_failed(&mut self, slot: u64) -> (result: bool)
        requires
            old(self).wf(),
        ensures
            final(self).wf(),
            reuse_undone(old(self)@, slot) == (final(self)@, result),
    {
        let revocable = match self.transfers.get(slot) {
            Some(transfer) => transfer.exchange.fallback.is_some(),
            None => false,
        };
        if !revocable {
            return false;
        }
        proof {
            lemma_transfer_taken(self@, slot);
        }
        if let Some(transfer) = self.transfers.remove(slot) {
            if let Some(pending) = retry_transfer(transfer) {
                self.pool.uncount_reuse();
                self.release_held(&pending.key);
                self.emit(Effect::Close { slot });
                if let Some(pending) = self.take_room(pending) {
                    self.join_queue(pending);
                }
            }
        }
        true
    }
}

proof fn lemma_fresh_lookup(before: BackendView, after: BackendView, lease: KeyView)
    requires
        backend_holds(before, seq![lease]),
        before.next_resolve_key < u64::MAX,
        after == (BackendView {
            next_resolve_key: (before.next_resolve_key + 1) as u64,
            ..before
        }),
    ensures
        backend_holds(after, seq![lease]),
        !holds(after.resolves, before.next_resolve_key),
{
    lemma_position(after.resolves, before.next_resolve_key);
}

/// Requests in the queue, from a position on, that are too late end.
pub open spec fn waiting_expired(backend: BackendView, now: u64, from: nat) -> BackendView
    decreases backend.waiting.len() - from,
{
    if from >= backend.waiting.len() {
        backend
    } else {
        let pending = backend.waiting[from as int];
        if is_past(pending_deadline(pending), now) {
            waiting_expired(
                reported(
                    BackendView { waiting: backend.waiting.remove(from as int), ..backend },
                    pending.request_id,
                    pending_failed(pending.response, expired(pending_timeout(pending, now))),
                ),
                now,
                from,
            )
        } else {
            waiting_expired(backend, now, from + 1)
        }
    }
}

/// Requests in the queue, from a position on, get connections as far as there are any. Whenever one
/// did, the queue is gone through from its start.
pub open spec fn waiting_dispatched(backend: BackendView, from: nat) -> BackendView
    decreases backend.waiting.len(), backend.waiting.len() - from,
{
    if from >= backend.waiting.len() {
        backend
    } else {
        let pending = backend.waiting[from as int];
        let rest = backend.waiting.remove(from as int);
        let (next, done) = placed(BackendView { waiting: rest, ..backend }, pending);
        if done {
            waiting_dispatched(BackendView { waiting: rest, ..next }, 0)
        } else {
            waiting_dispatched(BackendView { waiting: backend.waiting, ..next }, from + 1)
        }
    }
}

/// The queue is gone through: what is too late ends, and what can start does.
pub open spec fn dispatched(backend: BackendView, now: u64) -> BackendView {
    waiting_dispatched(waiting_expired(backend, now, 0), 0)
}

/// Taking a request out of the queue leaves the engine in order.
pub proof fn lemma_waiting_taken(backend: BackendView, at: int)
    requires
        backend_ok(backend),
        0 <= at < backend.waiting.len(),
    ensures
        backend_ok(BackendView { waiting: backend.waiting.remove(at), ..backend }),
        pending_response_ok(backend.waiting[at].response),
{
    let next = BackendView { waiting: backend.waiting.remove(at), ..backend };
    assert forall|i: int| 0 <= i < next.waiting.len() implies pending_response_ok(
        (#[trigger] next.waiting[i]).response,
    ) by {
        let from = if i < at {
            i
        } else {
            i + 1
        };
        assert(next.waiting[i] == backend.waiting[from]);
    }
}

impl NativeHttpBackend {
    /// Ends the requests in the queue that are too late.
    pub fn expire_waiting(&mut self, now: u64)
        requires
            old(self).wf(),
        ensures
            final(self).wf(),
            final(self)@ == waiting_expired(old(self)@, now, 0),
    {
        let mut index: usize = 0;
        while index < self.waiting.len()
            invariant
                self.wf(),
                index <= self@.waiting.len(),
                waiting_expired(old(self)@, now, 0) == waiting_expired(self@, now, index as nat),
            decreases self@.waiting.len() - index,
        {
            if has_passed(self.waiting.get(index).next_deadline(), now) {
                proof {
                    lemma_waiting_taken(self@, index as int);
                }
                let pending = self.waiting.remove(index);
                let error = expired_error(pending.expired_timeout(now));
                let id = pending.request_id;
                let completion = pending.fail(error);
                self.report(id, completion);
            } else {
                index += 1;
            }
        }
    }

    /// Gives connections to the requests in the queue as far as there are any.
    pub fn dispatch_waiting(&mut self, now: u64)
        requires
            old(self).wf(),
        ensures
            final(self).wf(),
            final(self)@ == dispatched(old(self)@, now),
    {
        self.expire_waiting(now);
        let ghost start = self@;
        let mut index: usize = 0;
        while index < self.waiting.len()
            invariant
                self.wf(),
                index <= self@.waiting.len(),
                waiting_dispatched(start, 0) == waiting_dispatched(self@, index as nat),
            decreases self@.waiting.len(), self@.waiting.len() - index,
        {
            let ghost before = self@;
            proof {
                lemma_waiting_taken(before, index as int);
            }
            let pending = self.waiting.remove(index);
            let ghost taken = self@;
            match self.place(pending) {
                None => {
                    assert(self@ == (BackendView { waiting: taken.waiting, ..self@ }));
                    index = 0;
                },
                Some(pending) => {
                    self.waiting.insert(index, pending);
                    proof {
                        assert(self@.waiting =~= before.waiting);
                        assert forall|i: int|
                            0 <= i < self@.waiting.len() implies pending_response_ok(
                            (#[trigger] self@.waiting[i]).response,
                        ) by {
                            assert(self@.waiting[i] == before.waiting[i]);
                        }
                    }
                    index += 1;
                },
            }
        }
    }
}

} // verus!
