//! The HTTP engine: requests that wait, requests that are looked up, exchanges, and the connections
//! that they share.
//!
//! The engine decides and the socket layer acts: each call takes what happened, changes the state,
//! and appends what is to be done to `effects` and what came of requests to `done`.

use crate::config::ConnectionLimits;
use crate::pending::{pending_response_ok, Completion, CompletionView, PendingResolve, PendingView};
use crate::pool::{
    dropped, first_key, idle_keys, leased, lemma_tally_push, lemma_tally_remove,
    lemma_tally_without, no_counts, pool_ok, rested, room_made, tally, unleased, without,
    ConnectionKey, ConnectionPool, IdleView, KeyView, PoolView,
};
use crate::table::{
    distinct, found, holds, lemma_added, lemma_position, lemma_without_id, position, without_id,
    Queue, Table,
};
use crate::transfer::{transfer_ok, HttpTransfer, TransferView};
use crate::types::{plain_error, Error, ErrorKind, HttpLimits, TlsVerification};
use vstd::prelude::*;
use vstd::string::*;

verus! {

/// What the socket layer is asked to do.
#[derive(Debug)]
pub enum Effect {
    /// Connect, through TLS where `tls` says how, and send the bytes of the request. `host` is the
    /// name that was asked for: the one that the certificate of a TLS peer has to bear.
    ///
    /// `outbound_limit` bounds the bytes that may wait to be written. Without TLS it is there. With
    /// TLS the bytes that wait are records, and their bound is that of the session. `receive_limit`
    /// bounds the bytes of HTTP that may arrive; with TLS the session turns it into a bound on
    /// records.
    Connect {
        slot: u64,
        address: Vec<u8>,
        port: u16,
        host: Vec<u8>,
        tls: Option<TlsVerification>,
        deadline: Option<u64>,
        outbound_limit: Option<usize>,
        receive_limit: usize,
        bytes: Vec<u8>,
    },
    /// Send the bytes of another request on an idle connection, with limits that mean what they mean
    /// for a new one. Where this cannot even be begun, the engine is to be told so.
    Reuse {
        slot: u64,
        deadline: Option<u64>,
        outbound_limit: Option<usize>,
        receive_limit: usize,
        bytes: Vec<u8>,
    },
    /// Send more bytes.
    Send { slot: u64, bytes: Vec<u8> },
    /// Wake up at a time, or not at all.
    SetDeadline { slot: u64, deadline: Option<u64> },
    /// Read no more than so many bytes.
    SetReadAllowance { slot: u64, allowance: usize },
    /// Close the connection.
    Close { slot: u64 },
    /// Find the address of a host.
    Locate { key: u64, host: Vec<u8> },
    /// Stop finding an address.
    CancelLocate { key: u64 },
}

/// What an [`Effect`] says.
pub enum EffectView {
    Connect {
        slot: u64,
        address: Seq<u8>,
        port: u16,
        host: Seq<u8>,
        tls: Option<TlsVerification>,
        deadline: Option<u64>,
        outbound_limit: Option<nat>,
        receive_limit: nat,
        bytes: Seq<u8>,
    },
    Reuse {
        slot: u64,
        deadline: Option<u64>,
        outbound_limit: Option<nat>,
        receive_limit: nat,
        bytes: Seq<u8>,
    },
    Send { slot: u64, bytes: Seq<u8> },
    SetDeadline { slot: u64, deadline: Option<u64> },
    SetReadAllowance { slot: u64, allowance: nat },
    Close { slot: u64 },
    Locate { key: u64, host: Seq<u8> },
    CancelLocate { key: u64 },
}

/// A limit as a number.
pub open spec fn limit_view(limit: Option<usize>) -> Option<nat> {
    match limit {
        Some(bytes) => Some(bytes as nat),
        None => None,
    }
}

impl View for Effect {
    type V = EffectView;

    open spec fn view(&self) -> EffectView {
        match self {
            Effect::Connect {
                slot,
                address,
                port,
                host,
                tls,
                deadline,
                outbound_limit,
                receive_limit,
                bytes,
            } => EffectView::Connect {
                slot: *slot,
                address: address@,
                port: *port,
                host: host@,
                tls: *tls,
                deadline: *deadline,
                outbound_limit: limit_view(*outbound_limit),
                receive_limit: *receive_limit as nat,
                bytes: bytes@,
            },
            Effect::Reuse { slot, deadline, outbound_limit, receive_limit, bytes } =>
                EffectView::Reuse {
                slot: *slot,
                deadline: *deadline,
                outbound_limit: limit_view(*outbound_limit),
                receive_limit: *receive_limit as nat,
                bytes: bytes@,
            },
            Effect::Send { slot, bytes } => EffectView::Send { slot: *slot, bytes: bytes@ },
            Effect::SetDeadline { slot, deadline } => EffectView::SetDeadline {
                slot: *slot,
                deadline: *deadline,
            },
            Effect::SetReadAllowance { slot, allowance } => EffectView::SetReadAllowance {
                slot: *slot,
                allowance: *allowance as nat,
            },
            Effect::Close { slot } => EffectView::Close { slot: *slot },
            Effect::Locate { key, host } => EffectView::Locate { key: *key, host: host@ },
            Effect::CancelLocate { key } => EffectView::CancelLocate { key: *key },
        }
    }
}

/// How a request ended, with its number.
#[derive(Debug)]
pub struct BackendCompletion {
    pub id: u64,
    pub completion: Completion,
}

impl View for BackendCompletion {
    type V = (u64, CompletionView);

    open spec fn view(&self) -> (u64, CompletionView) {
        (self.id, self.completion@)
    }
}

/// The HTTP engine.
pub struct NativeHttpBackend {
    pub limits: HttpLimits,
    pub has_tls: bool,
    pub pool: ConnectionPool,
    pub transfers: Table<HttpTransfer>,
    pub resolves: Table<PendingResolve>,
    pub waiting: Queue<PendingResolve>,
    pub next_slot: u64,
    pub next_resolve_key: u64,
    pub effects: Queue<Effect>,
    pub done: Queue<BackendCompletion>,
}

/// What a [`NativeHttpBackend`] holds.
pub struct BackendView {
    pub limits: HttpLimits,
    pub has_tls: bool,
    pub pool: PoolView,
    pub transfers: Seq<(u64, TransferView)>,
    pub resolves: Seq<(u64, PendingView)>,
    pub waiting: Seq<PendingView>,
    pub next_slot: u64,
    pub next_resolve_key: u64,
    pub effects: Seq<EffectView>,
    pub done: Seq<(u64, CompletionView)>,
}

impl View for NativeHttpBackend {
    type V = BackendView;

    open spec fn view(&self) -> BackendView {
        BackendView {
            limits: self.limits,
            has_tls: self.has_tls,
            pool: self.pool@,
            transfers: self.transfers@,
            resolves: self.resolves@,
            waiting: self.waiting@,
            next_slot: self.next_slot,
            next_resolve_key: self.next_resolve_key,
            effects: self.effects@,
            done: self.done@,
        }
    }
}

/// The keys of exchanges.
pub open spec fn transfer_keys(transfers: Seq<(u64, TransferView)>) -> Seq<KeyView> {
    transfers.map_values(|entry: (u64, TransferView)| entry.1.exchange.key)
}

/// The keys of requests whose host is being looked up.
pub open spec fn resolve_keys(resolves: Seq<(u64, PendingView)>) -> Seq<KeyView> {
    resolves.map_values(|entry: (u64, PendingView)| entry.1.key)
}

/// Every lease belongs to an exchange, to a lookup, to an idle connection, or is held.
pub open spec fn accounted(backend: BackendView, held: Seq<KeyView>) -> bool {
    forall|key: KeyView|
        #[trigger] tally(backend.pool.leases, key) == tally(transfer_keys(backend.transfers), key)
            + tally(resolve_keys(backend.resolves), key) + tally(
            idle_keys(backend.pool.idle),
            key,
        ) + tally(held, key)
}

/// Numbers are given out once: none in use is yet to come, and no connection carries an exchange
/// while it is idle.
pub open spec fn numbered(backend: BackendView) -> bool {
    &&& distinct(backend.transfers)
    &&& distinct(backend.resolves)
    &&& forall|i: int|
        0 <= i < backend.transfers.len() ==> (#[trigger] backend.transfers[i]).0
            < backend.next_slot
    &&& forall|i: int|
        0 <= i < backend.resolves.len() ==> (#[trigger] backend.resolves[i]).0
            < backend.next_resolve_key
    &&& forall|i: int|
        0 <= i < backend.pool.idle.len() ==> (#[trigger] backend.pool.idle[i]).slot
            < backend.next_slot
    &&& forall|i: int, j: int|
        0 <= i < backend.transfers.len() && 0 <= j < backend.pool.idle.len() ==> (
        #[trigger] backend.transfers[i]).0 != (#[trigger] backend.pool.idle[j]).slot
}

/// Everything that is held is in order.
pub open spec fn contents_ok(backend: BackendView) -> bool {
    &&& forall|i: int|
        0 <= i < backend.transfers.len() ==> transfer_ok((#[trigger] backend.transfers[i]).1)
    &&& forall|i: int|
        0 <= i < backend.resolves.len() ==> pending_response_ok(
            (#[trigger] backend.resolves[i]).1.response,
        )
    &&& forall|i: int|
        0 <= i < backend.waiting.len() ==> pending_response_ok(
            (#[trigger] backend.waiting[i]).response,
        )
}

/// The engine is in order while some leases are held by the call that is going on.
pub open spec fn backend_holds(backend: BackendView, held: Seq<KeyView>) -> bool {
    &&& pool_ok(backend.pool)
    &&& accounted(backend, held)
    &&& numbered(backend)
    &&& contents_ok(backend)
}

/// The engine is in order.
pub open spec fn backend_ok(backend: BackendView) -> bool {
    backend_holds(backend, Seq::empty())
}

/// One more thing to do.
pub open spec fn emitted(backend: BackendView, effect: EffectView) -> BackendView {
    BackendView { effects: backend.effects.push(effect), ..backend }
}

/// One more request that ended.
pub open spec fn reported(backend: BackendView, id: u64, completion: CompletionView) -> BackendView {
    BackendView { done: backend.done.push((id, completion)), ..backend }
}

/// A lease that is held is given back.
pub open spec fn released(backend: BackendView, key: KeyView) -> BackendView {
    BackendView {
        pool: unleased(backend.pool, key),
        ..backend
    }
}

/// Giving back the lease that is held leaves the engine in order.
pub proof fn lemma_released(backend: BackendView, key: KeyView)
    requires
        backend_holds(backend, seq![key]),
    ensures
        tally(idle_keys(backend.pool.idle), key) < tally(backend.pool.leases, key),
        pool_ok(released(backend, key).pool) ==> backend_ok(released(backend, key)),
{
    assert(seq![key].drop_last() =~= Seq::<KeyView>::empty());
    assert(tally(seq![key], key) == 1) by {
        reveal_with_fuel(tally, 2);
    }
    assert(tally(backend.pool.leases, key) == tally(transfer_keys(backend.transfers), key) + tally(
        resolve_keys(backend.resolves),
        key,
    ) + tally(idle_keys(backend.pool.idle), key) + tally(seq![key], key));
    let next = released(backend, key);
    assert forall|other: KeyView|
        #[trigger] tally(next.pool.leases, other) == tally(transfer_keys(next.transfers), other)
            + tally(resolve_keys(next.resolves), other) + tally(idle_keys(next.pool.idle), other)
            + tally(Seq::<KeyView>::empty(), other) by {
        lemma_tally_without(backend.pool.leases, key, other);
        assert(tally(backend.pool.leases, other) == tally(transfer_keys(backend.transfers), other)
            + tally(resolve_keys(backend.resolves), other) + tally(
            idle_keys(backend.pool.idle),
            other,
        ) + tally(seq![key], other));
        assert(tally(seq![key], other) == if key == other {
            1nat
        } else {
            0nat
        }) by {
            reveal_with_fuel(tally, 2);
        }
    }
}

impl NativeHttpBackend {
    pub open spec fn wf(&self) -> bool {
        backend_ok(self@)
    }

    /// Asks the socket layer for something.
    pub(crate) fn emit(&mut self, effect: Effect)
        ensures
            final(self)@ == emitted(old(self)@, effect@),
    {
        self.effects.push(effect);
    }

    /// Reports how a request ended.
    pub(crate) fn report(&mut self, id: u64, completion: Completion)
        ensures
            final(self)@ == reported(old(self)@, id, completion@),
    {
        self.done.push(BackendCompletion { id, completion });
    }

    /// Gives back a lease that is held.
    pub(crate) fn release_held(&mut self, key: &ConnectionKey)
        requires
            backend_holds(old(self)@, seq![key@]),
        ensures
            final(self)@ == released(old(self)@, key@),
            backend_ok(final(self)@),
    {
        proof {
            lemma_released(self@, key@);
        }
        self.pool.release_connection(key);
    }

    /// An engine without requests.
    pub fn new(limits: HttpLimits, has_tls: bool, connection_limits: ConnectionLimits) -> (result:
        Result<Self, Error>)
        ensures
            match result {
                Ok(backend) => {
                    &&& connection_limits.global > 0 && connection_limits.per_origin > 0
                    &&& backend.wf()
                    &&& backend@ == fresh_backend(limits, has_tls, connection_limits)
                },
                Err(error) => (connection_limits.global == 0 || connection_limits.per_origin == 0)
                    && error@ == plain_error(
                    ErrorKind::Internal,
                    "native connection limits are invalid"@,
                ),
            },
    {
        Self::new_with_connection_limits(limits, has_tls, connection_limits)
    }

    /// An engine without requests.
    pub fn new_with_connection_limits(
        limits: HttpLimits,
        has_tls: bool,
        connection_limits: ConnectionLimits,
    ) -> (result: Result<Self, Error>)
        ensures
            match result {
                Ok(backend) => {
                    &&& connection_limits.global > 0 && connection_limits.per_origin > 0
                    &&& backend.wf()
                    &&& backend@ == fresh_backend(limits, has_tls, connection_limits)
                },
                Err(error) => (connection_limits.global == 0 || connection_limits.per_origin == 0)
                    && error@ == plain_error(
                    ErrorKind::Internal,
                    "native connection limits are invalid"@,
                ),
            },
    {
        if connection_limits.global == 0 || connection_limits.per_origin == 0 {
            return Err(Error::new(ErrorKind::Internal, "native connection limits are invalid"));
        }
        let backend = NativeHttpBackend {
            limits,
            has_tls,
            pool: ConnectionPool::new(connection_limits),
            transfers: Table::new(),
            resolves: Table::new(),
            waiting: Queue::new(),
            next_slot: 1,
            next_resolve_key: 1,
            effects: Queue::new(),
            done: Queue::new(),
        };
        proof {
            assert(transfer_keys(backend@.transfers) =~= Seq::empty());
            assert(resolve_keys(backend@.resolves) =~= Seq::empty());
            assert(idle_keys(backend@.pool.idle) =~= Seq::empty());
        }
        Ok(backend)
    }
}

/// An engine without requests.
pub open spec fn fresh_backend(
    limits: HttpLimits,
    has_tls: bool,
    connection_limits: ConnectionLimits,
) -> BackendView {
    BackendView {
        limits,
        has_tls,
        pool: PoolView {
            limits: connection_limits,
            leases: Seq::empty(),
            idle: Seq::empty(),
            counts: no_counts(),
        },
        transfers: Seq::empty(),
        resolves: Seq::empty(),
        waiting: Seq::empty(),
        next_slot: 1,
        next_resolve_key: 1,
        effects: Seq::empty(),
        done: Seq::empty(),
    }
}

/// One key, held.
pub proof fn lemma_tally_one(key: KeyView, other: KeyView)
    ensures
        tally(seq![key], other) == if key == other {
            1nat
        } else {
            0nat
        },
        tally(Seq::<KeyView>::empty(), other) == 0,
{
    assert(seq![key].drop_last() =~= Seq::<KeyView>::empty());
    reveal_with_fuel(tally, 2);
}

/// An exchange starts with the lease that is held.
pub proof fn lemma_transfer_added(backend: BackendView, slot: u64, transfer: TransferView)
    requires
        backend_holds(backend, seq![transfer.exchange.key]),
        transfer_ok(transfer),
        slot < backend.next_slot,
        !holds(backend.transfers, slot),
        forall|j: int|
            0 <= j < backend.pool.idle.len() ==> (#[trigger] backend.pool.idle[j]).slot != slot,
    ensures
        backend_ok(
            BackendView { transfers: backend.transfers.push((slot, transfer)), ..backend },
        ),
{
    let next = BackendView { transfers: backend.transfers.push((slot, transfer)), ..backend };
    let key = transfer.exchange.key;
    assert(transfer_keys(next.transfers) =~= transfer_keys(backend.transfers).push(key));
    lemma_added(backend.transfers, slot, transfer, slot);
    assert forall|other: KeyView|
        #[trigger] tally(next.pool.leases, other) == tally(transfer_keys(next.transfers), other)
            + tally(resolve_keys(next.resolves), other) + tally(idle_keys(next.pool.idle), other)
            + tally(Seq::<KeyView>::empty(), other) by {
        lemma_tally_one(key, other);
        lemma_tally_push(transfer_keys(backend.transfers), key, other);
        assert(tally(backend.pool.leases, other) == tally(transfer_keys(backend.transfers), other)
            + tally(resolve_keys(backend.resolves), other) + tally(
            idle_keys(backend.pool.idle),
            other,
        ) + tally(seq![key], other));
    }
}

/// An exchange is taken out; its lease is then held.
pub proof fn lemma_transfer_taken(backend: BackendView, slot: u64)
    requires
        backend_ok(backend),
        holds(backend.transfers, slot),
    ensures
        ({
            let next = BackendView { transfers: without_id(backend.transfers, slot), ..backend };
            &&& backend_holds(next, seq![found(backend.transfers, slot).exchange.key])
            &&& !holds(next.transfers, slot)
            &&& transfer_ok(found(backend.transfers, slot))
            &&& slot < backend.next_slot
            &&& forall|j: int|
                0 <= j < backend.pool.idle.len() ==> (#[trigger] backend.pool.idle[j]).slot != slot
        }),
{
    let at = position(backend.transfers, slot);
    let key = found(backend.transfers, slot).exchange.key;
    let next = BackendView { transfers: without_id(backend.transfers, slot), ..backend };
    lemma_position(backend.transfers, slot);
    lemma_without_id(backend.transfers, slot, slot);
    assert(backend.transfers[at].0 == slot);
    assert(transfer_keys(next.transfers) =~= transfer_keys(backend.transfers).remove(at));
    assert(transfer_keys(backend.transfers)[at] == key);
    assert forall|other: KeyView|
        #[trigger] tally(next.pool.leases, other) == tally(transfer_keys(next.transfers), other)
            + tally(resolve_keys(next.resolves), other) + tally(idle_keys(next.pool.idle), other)
            + tally(seq![key], other) by {
        lemma_tally_one(key, other);
        lemma_tally_remove(transfer_keys(backend.transfers), at, other);
        assert(tally(backend.pool.leases, other) == tally(transfer_keys(backend.transfers), other)
            + tally(resolve_keys(backend.resolves), other) + tally(
            idle_keys(backend.pool.idle),
            other,
        ) + tally(Seq::<KeyView>::empty(), other));
    }
    assert forall|i: int| 0 <= i < next.transfers.len() implies transfer_ok(
        (#[trigger] next.transfers[i]).1,
    ) && next.transfers[i].0 < next.next_slot by {
        let from = if i < at {
            i
        } else {
            i + 1
        };
        assert(next.transfers[i] == backend.transfers[from]);
    }
    assert forall|i: int, j: int|
        0 <= i < next.transfers.len() && 0 <= j < next.pool.idle.len() implies (
    #[trigger] next.transfers[i]).0 != (#[trigger] next.pool.idle[j]).slot by {
        let from = if i < at {
            i
        } else {
            i + 1
        };
        assert(next.transfers[i] == backend.transfers[from]);
        assert(backend.transfers[from].0 != backend.pool.idle[j].slot);
    }
}

/// A lookup starts with the lease that is held.
pub proof fn lemma_resolve_added(backend: BackendView, key: u64, pending: PendingView)
    requires
        backend_holds(backend, seq![pending.key]),
        pending_response_ok(pending.response),
        key < backend.next_resolve_key,
        !holds(backend.resolves, key),
    ensures
        backend_ok(BackendView { resolves: backend.resolves.push((key, pending)), ..backend }),
{
    let next = BackendView { resolves: backend.resolves.push((key, pending)), ..backend };
    let lease = pending.key;
    assert(resolve_keys(next.resolves) =~= resolve_keys(backend.resolves).push(lease));
    lemma_added(backend.resolves, key, pending, key);
    assert forall|other: KeyView|
        #[trigger] tally(next.pool.leases, other) == tally(transfer_keys(next.transfers), other)
            + tally(resolve_keys(next.resolves), other) + tally(idle_keys(next.pool.idle), other)
            + tally(Seq::<KeyView>::empty(), other) by {
        lemma_tally_one(lease, other);
        lemma_tally_push(resolve_keys(backend.resolves), lease, other);
        assert(tally(backend.pool.leases, other) == tally(transfer_keys(backend.transfers), other)
            + tally(resolve_keys(backend.resolves), other) + tally(
            idle_keys(backend.pool.idle),
            other,
        ) + tally(seq![lease], other));
    }
}

/// A lookup is taken out; its lease is then held.
pub proof fn lemma_resolve_taken(backend: BackendView, key: u64)
    requires
        backend_ok(backend),
        holds(backend.resolves, key),
    ensures
        backend_holds(
            BackendView { resolves: without_id(backend.resolves, key), ..backend },
            seq![found(backend.resolves, key).key],
        ),
        pending_response_ok(found(backend.resolves, key).response),
{
    let at = position(backend.resolves, key);
    let lease = found(backend.resolves, key).key;
    let next = BackendView { resolves: without_id(backend.resolves, key), ..backend };
    lemma_position(backend.resolves, key);
    lemma_without_id(backend.resolves, key, key);
    assert(resolve_keys(next.resolves) =~= resolve_keys(backend.resolves).remove(at));
    assert(resolve_keys(backend.resolves)[at] == lease);
    assert forall|other: KeyView|
        #[trigger] tally(next.pool.leases, other) == tally(transfer_keys(next.transfers), other)
            + tally(resolve_keys(next.resolves), other) + tally(idle_keys(next.pool.idle), other)
            + tally(seq![lease], other) by {
        lemma_tally_one(lease, other);
        lemma_tally_remove(resolve_keys(backend.resolves), at, other);
        assert(tally(backend.pool.leases, other) == tally(transfer_keys(backend.transfers), other)
            + tally(resolve_keys(backend.resolves), other) + tally(
            idle_keys(backend.pool.idle),
            other,
        ) + tally(Seq::<KeyView>::empty(), other));
    }
    assert forall|i: int| 0 <= i < next.resolves.len() implies pending_response_ok(
        (#[trigger] next.resolves[i]).1.response,
    ) && next.resolves[i].0 < next.next_resolve_key by {
        let from = if i < at {
            i
        } else {
            i + 1
        };
        assert(next.resolves[i] == backend.resolves[from]);
    }
}

/// An idle connection is taken; its lease is then held.
pub proof fn lemma_idle_taken(backend: BackendView, at: int, pool: PoolView)
    requires
        backend_ok(backend),
        0 <= at < backend.pool.idle.len(),
        pool == (PoolView { idle: backend.pool.idle.remove(at), ..backend.pool }),
        pool_ok(pool),
    ensures
        backend_holds(BackendView { pool, ..backend }, seq![backend.pool.idle[at].key]),
        backend.pool.idle[at].slot < backend.next_slot,
        !holds(backend.transfers, backend.pool.idle[at].slot),
        forall|j: int|
            0 <= j < pool.idle.len() ==> (#[trigger] pool.idle[j]).slot
                != backend.pool.idle[at].slot,
{
    let slot = backend.pool.idle[at].slot;
    let key = backend.pool.idle[at].key;
    let next = BackendView { pool, ..backend };
    assert(idle_keys(pool.idle) =~= idle_keys(backend.pool.idle).remove(at));
    assert(idle_keys(backend.pool.idle)[at] == key);
    assert forall|other: KeyView|
        #[trigger] tally(next.pool.leases, other) == tally(transfer_keys(next.transfers), other)
            + tally(resolve_keys(next.resolves), other) + tally(idle_keys(next.pool.idle), other)
            + tally(seq![key], other) by {
        lemma_tally_one(key, other);
        lemma_tally_remove(idle_keys(backend.pool.idle), at, other);
        assert(tally(backend.pool.leases, other) == tally(transfer_keys(backend.transfers), other)
            + tally(resolve_keys(backend.resolves), other) + tally(
            idle_keys(backend.pool.idle),
            other,
        ) + tally(Seq::<KeyView>::empty(), other));
    }
    assert forall|j: int| 0 <= j < pool.idle.len() implies (#[trigger] pool.idle[j]).slot != slot
        && pool.idle[j].slot < next.next_slot by {
        let from = if j < at {
            j
        } else {
            j + 1
        };
        assert(pool.idle[j] == backend.pool.idle[from]);
    }
    assert forall|i: int, j: int|
        0 <= i < next.transfers.len() && 0 <= j < next.pool.idle.len() implies (
    #[trigger] next.transfers[i]).0 != (#[trigger] next.pool.idle[j]).slot by {
        let from = if j < at {
            j
        } else {
            j + 1
        };
        assert(pool.idle[j] == backend.pool.idle[from]);
        assert(backend.transfers[i].0 != backend.pool.idle[from].slot);
    }
    lemma_position(backend.transfers, slot);
    if holds(backend.transfers, slot) {
        let i = position(backend.transfers, slot);
        assert(backend.transfers[i].0 != backend.pool.idle[at].slot);
    }
}

/// The lease that is held becomes that of an idle connection.
pub proof fn lemma_parked(backend: BackendView, connection: IdleView, pool: PoolView)
    requires
        backend_holds(backend, seq![connection.key]),
        pool == rested(backend.pool, connection),
        pool_ok(pool),
        connection.slot < backend.next_slot,
        !holds(backend.transfers, connection.slot),
    ensures
        backend_ok(BackendView { pool, ..backend }),
{
    let key = connection.key;
    let next = BackendView { pool, ..backend };
    assert(idle_keys(pool.idle) =~= idle_keys(backend.pool.idle).push(key));
    assert forall|other: KeyView|
        #[trigger] tally(next.pool.leases, other) == tally(transfer_keys(next.transfers), other)
            + tally(resolve_keys(next.resolves), other) + tally(idle_keys(next.pool.idle), other)
            + tally(Seq::<KeyView>::empty(), other) by {
        lemma_tally_one(key, other);
        lemma_tally_push(idle_keys(backend.pool.idle), key, other);
        assert(tally(backend.pool.leases, other) == tally(transfer_keys(backend.transfers), other)
            + tally(resolve_keys(backend.resolves), other) + tally(
            idle_keys(backend.pool.idle),
            other,
        ) + tally(seq![key], other));
    }
    assert forall|i: int, j: int|
        0 <= i < next.transfers.len() && 0 <= j < next.pool.idle.len() implies (
    #[trigger] next.transfers[i]).0 != (#[trigger] next.pool.idle[j]).slot by {
        if j < backend.pool.idle.len() {
            assert(backend.transfers[i].0 != backend.pool.idle[j].slot);
        } else {
            lemma_position(backend.transfers, connection.slot);
            assert(backend.transfers[i].0 != connection.slot);
        }
    }
}

/// A lease that was just taken is held.
pub proof fn lemma_reserved(backend: BackendView, key: KeyView, pool: PoolView)
    requires
        backend_ok(backend),
        pool == leased(backend.pool, key),
        pool_ok(pool),
    ensures
        backend_holds(BackendView { pool, ..backend }, seq![key]),
{
    let next = BackendView { pool, ..backend };
    assert forall|other: KeyView|
        #[trigger] tally(next.pool.leases, other) == tally(transfer_keys(next.transfers), other)
            + tally(resolve_keys(next.resolves), other) + tally(idle_keys(next.pool.idle), other)
            + tally(seq![key], other) by {
        lemma_tally_one(key, other);
        lemma_tally_push(backend.pool.leases, key, other);
        assert(tally(backend.pool.leases, other) == tally(transfer_keys(backend.transfers), other)
            + tally(resolve_keys(backend.resolves), other) + tally(
            idle_keys(backend.pool.idle),
            other,
        ) + tally(Seq::<KeyView>::empty(), other));
    }
}

/// Dropping an idle connection leaves the engine in order.
pub proof fn lemma_idle_dropped(backend: BackendView, at: int)
    requires
        backend_ok(backend),
        0 <= at < backend.pool.idle.len(),
    ensures
        backend_ok(BackendView { pool: dropped(backend.pool, at), ..backend }),
{
    let key = backend.pool.idle[at].key;
    let taken = PoolView { idle: backend.pool.idle.remove(at), ..backend.pool };
    crate::pool::lemma_dropped_ok(backend.pool, at);
    let next = BackendView { pool: dropped(backend.pool, at), ..backend };
    assert(idle_keys(taken.idle) =~= idle_keys(backend.pool.idle).remove(at));
    assert(idle_keys(backend.pool.idle)[at] == key);
    assert forall|other: KeyView|
        #[trigger] tally(next.pool.leases, other) == tally(transfer_keys(next.transfers), other)
            + tally(resolve_keys(next.resolves), other) + tally(idle_keys(next.pool.idle), other)
            + tally(Seq::<KeyView>::empty(), other) by {
        lemma_tally_remove(idle_keys(backend.pool.idle), at, other);
        lemma_tally_remove(idle_keys(backend.pool.idle), at, key);
        lemma_tally_without(backend.pool.leases, key, other);
        assert(tally(idle_keys(backend.pool.idle), key) <= tally(backend.pool.leases, key));
        assert(tally(backend.pool.leases, other) == tally(transfer_keys(backend.transfers), other)
            + tally(resolve_keys(backend.resolves), other) + tally(
            idle_keys(backend.pool.idle),
            other,
        ) + tally(Seq::<KeyView>::empty(), other));
    }
    assert forall|j: int| 0 <= j < next.pool.idle.len() implies (
    #[trigger] next.pool.idle[j]).slot < next.next_slot by {
        let from = if j < at {
            j
        } else {
            j + 1
        };
        assert(next.pool.idle[j] == backend.pool.idle[from]);
    }
    assert forall|i: int, j: int|
        0 <= i < next.transfers.len() && 0 <= j < next.pool.idle.len() implies (
    #[trigger] next.transfers[i]).0 != (#[trigger] next.pool.idle[j]).slot by {
        let from = if j < at {
            j
        } else {
            j + 1
        };
        assert(next.pool.idle[j] == backend.pool.idle[from]);
        assert(backend.transfers[i].0 != backend.pool.idle[from].slot);
    }
}

/// Making room leaves the engine in order.
pub proof fn lemma_room_made(backend: BackendView, key: KeyView)
    requires
        backend_ok(backend),
    ensures
        backend_ok(BackendView { pool: room_made(backend.pool, key).pool, ..backend }),
    decreases backend.pool.idle.len(),
{
    let pool = backend.pool;
    let own = first_key(idle_keys(pool.idle), key);
    if tally(pool.leases, key) >= pool.limits.per_origin {
        if 0 <= own < pool.idle.len() {
            lemma_idle_dropped(backend, own);
            lemma_room_made(BackendView { pool: dropped(pool, own), ..backend }, key);
        }
    } else if pool.leases.len() >= pool.limits.global {
        if pool.idle.len() > 0 {
            lemma_idle_dropped(backend, 0);
            lemma_room_made(BackendView { pool: dropped(pool, 0), ..backend }, key);
        }
    }
}

/// At no time are there more connections than the limits allow, in all or to one origin; and each
/// connection is accounted for by what uses it.
pub proof fn lemma_connections_are_bounded(backend: BackendView, key: KeyView)
    requires
        backend_ok(backend),
    ensures
        backend.transfers.len() + backend.resolves.len() + backend.pool.idle.len()
            <= backend.pool.limits.global,
        tally(transfer_keys(backend.transfers), key) + tally(resolve_keys(backend.resolves), key)
            + tally(idle_keys(backend.pool.idle), key) <= backend.pool.limits.per_origin,
        backend.pool.idle.len() <= backend.pool.limits.idle_global,
{
    lemma_tally_one(key, key);
    assert(tally(backend.pool.leases, key) <= backend.pool.limits.per_origin);
    assert(tally(backend.pool.leases, key) == tally(transfer_keys(backend.transfers), key) + tally(
        resolve_keys(backend.resolves),
        key,
    ) + tally(idle_keys(backend.pool.idle), key) + tally(Seq::<KeyView>::empty(), key));
    let uses = transfer_keys(backend.transfers) + resolve_keys(backend.resolves) + idle_keys(
        backend.pool.idle,
    );
    assert forall|other: KeyView| #[trigger] tally(backend.pool.leases, other) == tally(
        uses,
        other,
    ) by {
        lemma_tally_one(other, other);
        lemma_tally_concat(
            transfer_keys(backend.transfers) + resolve_keys(backend.resolves),
            idle_keys(backend.pool.idle),
            other,
        );
        lemma_tally_concat(
            transfer_keys(backend.transfers),
            resolve_keys(backend.resolves),
            other,
        );
        assert(tally(backend.pool.leases, other) == tally(transfer_keys(backend.transfers), other)
            + tally(resolve_keys(backend.resolves), other) + tally(
            idle_keys(backend.pool.idle),
            other,
        ) + tally(Seq::<KeyView>::empty(), other));
    }
    lemma_equal_tallies_equal_lengths(backend.pool.leases, uses);
}

proof fn lemma_tally_concat(left: Seq<KeyView>, right: Seq<KeyView>, key: KeyView)
    ensures
        tally(left + right, key) == tally(left, key) + tally(right, key),
    decreases right.len(),
{
    if right.len() == 0 {
        assert(left + right =~= left);
    } else {
        lemma_tally_concat(left, right.drop_last(), key);
        assert((left + right).drop_last() =~= left + right.drop_last());
    }
}

proof fn lemma_equal_tallies_equal_lengths(left: Seq<KeyView>, right: Seq<KeyView>)
    requires
        forall|key: KeyView| #[trigger] tally(left, key) == tally(right, key),
    ensures
        left.len() == right.len(),
    decreases left.len(),
{
    if left.len() == 0 {
        if right.len() > 0 {
            let key = right.last();
            assert(tally(right, key) > 0);
            assert(tally(left, key) == tally(right, key));
        }
    } else {
        let key = left.last();
        assert(tally(left, key) > 0);
        assert(tally(left, key) == tally(right, key));
        lemma_tally_without(right, key, key);
        let shorter = without(right, key);
        assert forall|other: KeyView| #[trigger] tally(left.drop_last(), other) == tally(
            shorter,
            other,
        ) by {
            lemma_tally_without(right, key, other);
            assert(tally(left, other) == tally(right, other));
        }
        lemma_equal_tallies_equal_lengths(left.drop_last(), shorter);
    }
}

} // verus!
