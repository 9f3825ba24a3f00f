//! TCP connections that carry no HTTP: lookups, attempts on one address after another, and live
//! connections.
//!
//! As with HTTP, the engine decides and the socket layer acts. The buffers of a live connection
//! belong to the socket layer, which reports how they stand.

use crate::deadline::{deadline_after, due, has_passed, is_past};
use crate::dispatch::lookups_exhausted;
use crate::failure::{standalone_connect_expired, standalone_connect_timeout};
use crate::resolver::{AddressFamily, AddressOrder, CacheMode, LookupQuery, QueryView};
use crate::standalone::{tcp_ok, StandaloneTcp};
use crate::table::{
    distinct, found, holds, lemma_added, lemma_position, lemma_position_at, lemma_without_id,
    without_id, Queue, Table,
};
use crate::types::{
    copy_bytes, plain_error, transport_error, Error, ErrorKind, ErrorView, TransportStage,
};
use vstd::prelude::*;
use vstd::string::*;

verus! {

/// An address and a port.
#[derive(Debug)]
pub struct Endpoint {
    pub host: Vec<u8>,
    pub port: u16,
}

impl View for Endpoint {
    type V = (Seq<u8>, u16);

    open spec fn view(&self) -> (Seq<u8>, u16) {
        (self.host@, self.port)
    }
}

/// What a connection is wanted for.
#[derive(Clone, Copy, Debug, PartialEq, Eq, Structural)]
pub struct TcpPurpose {
    pub request_id: u64,
    pub send_window: usize,
    pub receive_window: usize,
    pub read_inactivity_timeout: Option<u64>,
    pub write_inactivity_timeout: Option<u64>,
    pub max_resolve_results: usize,
}

/// Where a connection leads.
#[derive(Debug)]
pub enum TcpConnectTarget {
    Literal(Endpoint),
    Hostname { name: Vec<u8>, port: u16 },
}

/// A lookup for a connection.
#[derive(Clone, Copy, Debug, PartialEq, Eq, Structural)]
pub struct StandaloneResolve {
    pub purpose: TcpPurpose,
    pub port: u16,
    pub connect_deadline: Option<u64>,
}

impl View for StandaloneResolve {
    type V = StandaloneResolve;

    open spec fn view(&self) -> StandaloneResolve {
        *self
    }
}

/// A connection that is being made, with the addresses that are left to try.
#[derive(Debug)]
pub struct StandalonePending {
    pub purpose: TcpPurpose,
    pub remaining: Queue<Endpoint>,
    pub connect_deadline: Option<u64>,
}

/// What a [`StandalonePending`] holds.
pub struct AttemptView {
    pub purpose: TcpPurpose,
    pub remaining: Seq<(Seq<u8>, u16)>,
    pub connect_deadline: Option<u64>,
}

impl View for StandalonePending {
    type V = AttemptView;

    open spec fn view(&self) -> AttemptView {
        AttemptView {
            purpose: self.purpose,
            remaining: self.remaining@,
            connect_deadline: self.connect_deadline,
        }
    }
}

/// What a lookup led to.
#[derive(Debug)]
pub enum TcpLookup {
    Answer(Vec<Vec<u8>>),
    NameNotFound,
    NoData,
    Failed(Error),
    /// Nobody wants the connection any more.
    Abandoned,
}

/// What a [`TcpLookup`] says.
pub enum TcpLookupView {
    Answer(Seq<Seq<u8>>),
    NameNotFound,
    NoData,
    Failed(ErrorView),
    Abandoned,
}

/// What some addresses are.
pub open spec fn address_views(addresses: Seq<Vec<u8>>) -> Seq<Seq<u8>> {
    addresses.map_values(|address: Vec<u8>| address@)
}

impl View for TcpLookup {
    type V = TcpLookupView;

    open spec fn view(&self) -> TcpLookupView {
        match self {
            TcpLookup::Answer(addresses) => TcpLookupView::Answer(address_views(addresses@)),
            TcpLookup::NameNotFound => TcpLookupView::NameNotFound,
            TcpLookup::NoData => TcpLookupView::NoData,
            TcpLookup::Failed(error) => TcpLookupView::Failed(error@),
            TcpLookup::Abandoned => TcpLookupView::Abandoned,
        }
    }
}

/// What the socket layer is asked to do.
#[derive(Debug)]
pub enum TcpEffect {
    /// Connect for the owner that goes under `id`.
    Connect {
        id: u64,
        slot: u64,
        endpoint: Endpoint,
        deadline: Option<u64>,
        send_window: usize,
        receive_window: usize,
    },
    SetDeadline { slot: u64, deadline: Option<u64> },
    SetReadAllowance { slot: u64, allowance: usize },
    /// Nothing more will be written.
    ShutdownWrite { slot: u64 },
    Close { slot: u64 },
    Locate { key: u64, query: LookupQuery },
    CancelLocate { key: u64 },
    /// Tell the owner of a connection that it failed.
    Fail { id: u64, error: Error },
    /// Tell the owner of a connection that the peer reset it.
    Reset { id: u64 },
    /// Tell the owner of a live connection that it was given up.
    Cancelled { id: u64 },
}

/// What a [`TcpEffect`] says.
pub enum TcpEffectView {
    Connect {
        id: u64,
        slot: u64,
        endpoint: (Seq<u8>, u16),
        deadline: Option<u64>,
        send_window: usize,
        receive_window: usize,
    },
    SetDeadline { slot: u64, deadline: Option<u64> },
    SetReadAllowance { slot: u64, allowance: usize },
    ShutdownWrite { slot: u64 },
    Close { slot: u64 },
    Locate { key: u64, query: QueryView },
    CancelLocate { key: u64 },
    Fail { id: u64, error: ErrorView },
    Reset { id: u64 },
    Cancelled { id: u64 },
}

impl View for TcpEffect {
    type V = TcpEffectView;

    open spec fn view(&self) -> TcpEffectView {
        match self {
            TcpEffect::Connect { id, slot, endpoint, deadline, send_window, receive_window } =>
                TcpEffectView::Connect {
                id: *id,
                slot: *slot,
                endpoint: endpoint@,
                deadline: *deadline,
                send_window: *send_window,
                receive_window: *receive_window,
            },
            TcpEffect::SetDeadline { slot, deadline } => TcpEffectView::SetDeadline {
                slot: *slot,
                deadline: *deadline,
            },
            TcpEffect::SetReadAllowance { slot, allowance } => TcpEffectView::SetReadAllowance {
                slot: *slot,
                allowance: *allowance,
            },
            TcpEffect::ShutdownWrite { slot } => TcpEffectView::ShutdownWrite { slot: *slot },
            TcpEffect::Close { slot } => TcpEffectView::Close { slot: *slot },
            TcpEffect::Locate { key, query } => TcpEffectView::Locate {
                key: *key,
                query: query@,
            },
            TcpEffect::CancelLocate { key } => TcpEffectView::CancelLocate { key: *key },
            TcpEffect::Fail { id, error } => TcpEffectView::Fail { id: *id, error: error@ },
            TcpEffect::Reset { id } => TcpEffectView::Reset { id: *id },
            TcpEffect::Cancelled { id } => TcpEffectView::Cancelled { id: *id },
        }
    }
}

/// TCP connections that carry no HTTP.
pub struct TcpEngine {
    pub has_resolver: bool,
    pub lookups: Table<StandaloneResolve>,
    pub pending: Table<StandalonePending>,
    pub live: Table<StandaloneTcp>,
    pub next_slot: u64,
    pub next_resolve_key: u64,
    pub effects: Queue<TcpEffect>,
}

/// What a [`TcpEngine`] holds.
pub struct TcpView {
    pub has_resolver: bool,
    pub lookups: Seq<(u64, StandaloneResolve)>,
    pub pending: Seq<(u64, AttemptView)>,
    pub live: Seq<(u64, StandaloneTcp)>,
    pub next_slot: u64,
    pub next_resolve_key: u64,
    pub effects: Seq<TcpEffectView>,
}

impl View for TcpEngine {
    type V = TcpView;

    open spec fn view(&self) -> TcpView {
        TcpView {
            has_resolver: self.has_resolver,
            lookups: self.lookups@,
            pending: self.pending@,
            live: self.live@,
            next_slot: self.next_slot,
            next_resolve_key: self.next_resolve_key,
            effects: self.effects@,
        }
    }
}

/// Numbers are given out once, and no connection is live while it is being made.
pub open spec fn tcp_engine_ok(engine: TcpView) -> bool {
    &&& distinct(engine.lookups)
    &&& distinct(engine.pending)
    &&& distinct(engine.live)
    &&& forall|i: int|
        0 <= i < engine.lookups.len() ==> (#[trigger] engine.lookups[i]).0
            < engine.next_resolve_key
    &&& forall|i: int|
        0 <= i < engine.pending.len() ==> (#[trigger] engine.pending[i]).0 < engine.next_slot
    &&& forall|i: int|
        0 <= i < engine.live.len() ==> (#[trigger] engine.live[i]).0 < engine.next_slot && tcp_ok(
            engine.live[i].1,
        )
    &&& forall|i: int, j: int|
        0 <= i < engine.pending.len() && 0 <= j < engine.live.len() ==> (
        #[trigger] engine.pending[i]).0 != (#[trigger] engine.live[j]).0
}

/// An engine without connections.
pub open spec fn fresh_tcp_engine(has_resolver: bool) -> TcpView {
    TcpView {
        has_resolver,
        lookups: Seq::empty(),
        pending: Seq::empty(),
        live: Seq::empty(),
        next_slot: 1,
        next_resolve_key: 1,
        effects: Seq::empty(),
    }
}

/// One more thing to do.
pub open spec fn asked(engine: TcpView, effect: TcpEffectView) -> TcpView {
    TcpView { effects: engine.effects.push(effect), ..engine }
}

/// The owner of a connection learns that it failed.
pub open spec fn failed(engine: TcpView, id: u64, error: ErrorView) -> TcpView {
    asked(engine, TcpEffectView::Fail { id, error })
}

/// The next address is tried.
#[verifier::opaque]
pub open spec fn attempt_started(engine: TcpView, attempt: AttemptView, now: u64) -> TcpView {
    let id = attempt.purpose.request_id;
    if is_past(attempt.connect_deadline, now) {
        failed(engine, id, standalone_connect_expired())
    } else if attempt.remaining.len() == 0 {
        failed(
            engine,
            id,
            transport_error(
                TransportStage::Connect,
                "every resolved standalone TCP address failed to connect"@,
            ),
        )
    } else if engine.next_slot == u64::MAX {
        failed(
            engine,
            id,
            plain_error(
                ErrorKind::Internal,
                "the native connection identity space is exhausted"@,
            ),
        )
    } else {
        let slot = engine.next_slot;
        asked(
            TcpView {
                next_slot: (slot + 1) as u64,
                pending: engine.pending.push(
                    (slot, AttemptView { remaining: attempt.remaining.remove(0), ..attempt }),
                ),
                ..engine
            },
            TcpEffectView::Connect {
                id: attempt.purpose.request_id,
                slot,
                endpoint: attempt.remaining[0],
                deadline: attempt.connect_deadline,
                send_window: attempt.purpose.send_window,
                receive_window: attempt.purpose.receive_window,
            },
        )
    }
}

/// Addresses with a port.
pub open spec fn endpoints(addresses: Seq<Seq<u8>>, port: u16) -> Seq<(Seq<u8>, u16)> {
    addresses.map_values(|address: Seq<u8>| (address, port))
}

/// What a [`TcpConnectTarget`] says.
pub enum TargetView {
    Literal((Seq<u8>, u16)),
    Hostname { name: Seq<u8>, port: u16 },
}

impl View for TcpConnectTarget {
    type V = TargetView;

    open spec fn view(&self) -> TargetView {
        match self {
            TcpConnectTarget::Literal(endpoint) => TargetView::Literal(endpoint@),
            TcpConnectTarget::Hostname { name, port } => TargetView::Hostname {
                name: name@,
                port: *port,
            },
        }
    }
}

/// A connection is asked for.
pub open spec fn connect_submitted(
    engine: TcpView,
    purpose: TcpPurpose,
    target: TargetView,
    connect_timeout: Option<u64>,
    accepted_at: u64,
    now: u64,
) -> TcpView {
    let connect_deadline = due(accepted_at, connect_timeout);
    match target {
        TargetView::Literal(endpoint) => attempt_started(
            engine,
            AttemptView { purpose, remaining: seq![endpoint], connect_deadline },
            now,
        ),
        TargetView::Hostname { name, port } => if !engine.has_resolver {
            failed(
                engine,
                purpose.request_id,
                plain_error(
                    ErrorKind::Unsupported,
                    "hostname TCP connections require the native resolver owner"@,
                ),
            )
        } else if is_past(connect_deadline, now) {
            failed(engine, purpose.request_id, standalone_connect_expired())
        } else if engine.next_resolve_key == u64::MAX {
            failed(engine, purpose.request_id, lookups_exhausted())
        } else {
            let key = engine.next_resolve_key;
            asked(
                TcpView {
                    next_resolve_key: (key + 1) as u64,
                    lookups: engine.lookups.push(
                        (key, StandaloneResolve { purpose, port, connect_deadline }),
                    ),
                    ..engine
                },
                TcpEffectView::Locate {
                    key,
                    query: QueryView {
                        host: name,
                        family: AddressFamily::Both,
                        order: AddressOrder::Ipv4ThenIpv6,
                        cache_mode: CacheMode::Use,
                        max_results: purpose.max_resolve_results,
                        expand_search: false,
                    },
                },
            )
        },
    }
}

/// A lookup ended.
pub open spec fn tcp_located(engine: TcpView, key: u64, outcome: TcpLookupView, now: u64) -> TcpView {
    if !holds(engine.lookups, key) {
        engine
    } else {
        let lookup = found(engine.lookups, key);
        let id = lookup.purpose.request_id;
        let taken = TcpView { lookups: without_id(engine.lookups, key), ..engine };
        if is_past(lookup.connect_deadline, now) {
            failed(taken, id, standalone_connect_expired())
        } else {
            match outcome {
                TcpLookupView::Abandoned => taken,
                TcpLookupView::Answer(addresses) => if addresses.len() > 0 {
                    attempt_started(
                        taken,
                        AttemptView {
                            purpose: lookup.purpose,
                            remaining: endpoints(addresses, lookup.port),
                            connect_deadline: lookup.connect_deadline,
                        },
                        now,
                    )
                } else {
                    failed(
                        taken,
                        id,
                        transport_error(
                            TransportStage::Dns,
                            "the standalone TCP hostname resolved without a usable address"@,
                        ),
                    )
                },
                TcpLookupView::NameNotFound => failed(
                    taken,
                    id,
                    transport_error(
                        TransportStage::Dns,
                        "the standalone TCP hostname does not exist"@,
                    ),
                ),
                TcpLookupView::NoData => failed(
                    taken,
                    id,
                    transport_error(
                        TransportStage::Dns,
                        "the standalone TCP hostname has no usable address data"@,
                    ),
                ),
                TcpLookupView::Failed(error) => failed(taken, id, error),
            }
        }
    }
}

/// Lookups, from a position on, that take too long stop.
pub open spec fn tcp_lookups_expired(engine: TcpView, now: u64, from: nat) -> TcpView
    decreases engine.lookups.len() - from,
{
    if from >= engine.lookups.len() {
        engine
    } else {
        let (key, lookup) = engine.lookups[from as int];
        if is_past(lookup.connect_deadline, now) {
            tcp_lookups_expired(
                failed(
                    asked(
                        TcpView { lookups: engine.lookups.remove(from as int), ..engine },
                        TcpEffectView::CancelLocate { key },
                    ),
                    lookup.purpose.request_id,
                    standalone_connect_expired(),
                ),
                now,
                from,
            )
        } else {
            tcp_lookups_expired(engine, now, from + 1)
        }
    }
}

/// Taking a lookup out leaves the engine in order.
pub proof fn lemma_lookup_taken(engine: TcpView, key: u64)
    requires
        tcp_engine_ok(engine),
    ensures
        tcp_engine_ok(TcpView { lookups: without_id(engine.lookups, key), ..engine }),
        !holds(without_id(engine.lookups, key), key),
{
    lemma_without_id(engine.lookups, key, key);
    lemma_position(engine.lookups, key);
    lemma_entries_without(engine.lookups, key);
}

/// Taking a connection out that is being made leaves the engine in order.
pub proof fn lemma_pending_taken(engine: TcpView, slot: u64)
    requires
        tcp_engine_ok(engine),
    ensures
        tcp_engine_ok(TcpView { pending: without_id(engine.pending, slot), ..engine }),
        !holds(without_id(engine.pending, slot), slot),
        holds(engine.pending, slot) ==> slot < engine.next_slot && !holds(engine.live, slot),
{
    lemma_without_id(engine.pending, slot, slot);
    lemma_position(engine.pending, slot);
    lemma_position(engine.live, slot);
    lemma_entries_without(engine.pending, slot);
    let left = without_id(engine.pending, slot);
    assert forall|i: int, j: int|
        0 <= i < left.len() && 0 <= j < engine.live.len() implies (#[trigger] left[i]).0 != (
    #[trigger] engine.live[j]).0 by {
        let from = choose|from: int|
            0 <= from < engine.pending.len() && engine.pending[from] == left[i];
        assert(engine.pending[from].0 != engine.live[j].0);
    }
}

/// Taking a live connection out leaves the engine in order.
pub proof fn lemma_live_taken(engine: TcpView, slot: u64)
    requires
        tcp_engine_ok(engine),
    ensures
        tcp_engine_ok(TcpView { live: without_id(engine.live, slot), ..engine }),
        !holds(without_id(engine.live, slot), slot),
        holds(engine.live, slot) ==> slot < engine.next_slot && tcp_ok(found(engine.live, slot))
            && !holds(engine.pending, slot),
{
    lemma_without_id(engine.live, slot, slot);
    lemma_position(engine.live, slot);
    lemma_position(engine.pending, slot);
    lemma_entries_without(engine.live, slot);
    let left = without_id(engine.live, slot);
    assert forall|i: int, j: int|
        0 <= i < engine.pending.len() && 0 <= j < left.len() implies (
    #[trigger] engine.pending[i]).0 != (#[trigger] left[j]).0 by {
        let from = choose|from: int| 0 <= from < engine.live.len() && engine.live[from] == left[j];
        assert(engine.pending[i].0 != engine.live[from].0);
    }
}

/// What is left of a table was in it.
proof fn lemma_entries_without<V>(entries: Seq<(u64, V)>, id: u64)
    ensures
        forall|i: int|
            0 <= i < without_id(entries, id).len() ==> exists|from: int|
                0 <= from < entries.len() && entries[from] == #[trigger] without_id(
                    entries,
                    id,
                )[i],
{
    let left = without_id(entries, id);
    lemma_position(entries, id);
    let at = crate::table::position(entries, id);
    assert forall|i: int| 0 <= i < left.len() implies exists|from: int|
        0 <= from < entries.len() && entries[from] == #[trigger] left[i] by {
        if at < entries.len() && i >= at {
            assert(entries[i + 1] == left[i]);
        } else {
            assert(entries[i] == left[i]);
        }
    }
}

/// A connection that is being made is put where there was none.
pub proof fn lemma_pending_added(engine: TcpView, slot: u64, attempt: AttemptView)
    requires
        tcp_engine_ok(engine),
        slot < engine.next_slot,
        !holds(engine.live, slot),
        !holds(engine.pending, slot),
    ensures
        tcp_engine_ok(TcpView { pending: engine.pending.push((slot, attempt)), ..engine }),
{
    lemma_added(engine.pending, slot, attempt, slot);
    lemma_position(engine.live, slot);
}

/// A live connection is put where there was none.
pub proof fn lemma_live_added(engine: TcpView, slot: u64, tcp: StandaloneTcp)
    requires
        tcp_engine_ok(engine),
        slot < engine.next_slot,
        !holds(engine.live, slot),
        !holds(engine.pending, slot),
        tcp_ok(tcp),
    ensures
        tcp_engine_ok(TcpView { live: engine.live.push((slot, tcp)), ..engine }),
{
    lemma_added(engine.live, slot, tcp, slot);
    lemma_position(engine.pending, slot);
}

impl TcpEngine {
    pub open spec fn wf(&self) -> bool {
        tcp_engine_ok(self@)
    }

    /// An engine without connections.
    pub fn new(has_resolver: bool) -> (result: Self)
        ensures
            result.wf(),
            result@ == fresh_tcp_engine(has_resolver),
    {
        TcpEngine {
            has_resolver,
            lookups: Table::new(),
            pending: Table::new(),
            live: Table::new(),
            next_slot: 1,
            next_resolve_key: 1,
            effects: Queue::new(),
        }
    }

    pub(crate) fn ask(&mut self, effect: TcpEffect)
        ensures
            final(self)@ == asked(old(self)@, effect@),
            old(self).wf() ==> final(self).wf(),
    {
        self.effects.push(effect);
    }

    pub(crate) fn fail(&mut self, id: u64, error: Error)
        ensures
            final(self)@ == failed(old(self)@, id, error@),
            old(self).wf() ==> final(self).wf(),
    {
        self.ask(TcpEffect::Fail { id, error });
    }

    /// Tries the next address.
    pub fn start_standalone_attempt(&mut self, attempt: StandalonePending, now: u64)
        requires
            old(self).wf(),
        ensures
            final(self).wf(),
            final(self)@ == attempt_started(old(self)@, attempt@, now),
    {
        reveal(attempt_started);
        let id = attempt.purpose.request_id;
        if has_passed(attempt.connect_deadline, now) {
            self.fail(id, standalone_connect_timeout());
            return;
        }
        if attempt.remaining.len() == 0 {
            self.fail(
                id,
                Error::transport(
                    TransportStage::Connect,
                    "every resolved standalone TCP address failed to connect",
                ),
            );
            return;
        }
        if self.next_slot == u64::MAX {
            self.fail(
                id,
                Error::new(
                    ErrorKind::Internal,
                    "the native connection identity space is exhausted",
                ),
            );
            return;
        }
        let slot = self.next_slot;
        let mut attempt = attempt;
        let endpoint = attempt.remaining.remove(0);
        let deadline = attempt.connect_deadline;
        let send_window = attempt.purpose.send_window;
        let receive_window = attempt.purpose.receive_window;
        proof {
            lemma_position(self@.pending, slot);
            lemma_position(self@.live, slot);
            lemma_added(self@.pending, slot, attempt@, slot);
        }
        self.next_slot = slot + 1;
        self.pending.insert(slot, attempt);
        self.ask(
            TcpEffect::Connect { id, slot, endpoint, deadline, send_window, receive_window },
        );
    }

    /// Takes the wish for a connection.
    pub fn submit_tcp_connect(
        &mut self,
        purpose: TcpPurpose,
        target: TcpConnectTarget,
        connect_timeout: Option<u64>,
        accepted_at: u64,
        now: u64,
    )
        requires
            old(self).wf(),
        ensures
            final(self).wf(),
            final(self)@ == connect_submitted(
                old(self)@,
                purpose,
                target@,
                connect_timeout,
                accepted_at,
                now,
            ),
    {
        let connect_deadline = deadline_after(accepted_at, connect_timeout);
        let id = purpose.request_id;
        match target {
            TcpConnectTarget::Literal(endpoint) => {
                let mut remaining = Queue::new();
                let ghost literal = endpoint@;
                remaining.push(endpoint);
                assert(remaining@ =~= seq![literal]);
                self.start_standalone_attempt(
                    StandalonePending { purpose, remaining, connect_deadline },
                    now,
                );
            },
            TcpConnectTarget::Hostname { name, port } => {
                if !self.has_resolver {
                    self.fail(
                        id,
                        Error::new(
                            ErrorKind::Unsupported,
                            "hostname TCP connections require the native resolver owner",
                        ),
                    );
                    return;
                }
                if has_passed(connect_deadline, now) {
                    self.fail(id, standalone_connect_timeout());
                    return;
                }
                if self.next_resolve_key == u64::MAX {
                    self.fail(
                        id,
                        Error::new(
                            ErrorKind::Internal,
                            "the native resolver request identity space is exhausted",
                        ),
                    );
                    return;
                }
                let key = self.next_resolve_key;
                let lookup = StandaloneResolve { purpose, port, connect_deadline };
                proof {
                    lemma_position(self@.lookups, key);
                    lemma_added(self@.lookups, key, lookup@, key);
                }
                self.next_resolve_key = key + 1;
                self.lookups.insert(key, lookup);
                self.ask(
                    TcpEffect::Locate {
                        key,
                        query: LookupQuery {
                            host: name,
                            family: AddressFamily::Both,
                            order: AddressOrder::Ipv4ThenIpv6,
                            cache_mode: CacheMode::Use,
                            max_results: purpose.max_resolve_results,
                            expand_search: false,
                        },
                    },
                );
            },
        }
    }

    /// Takes the end of a lookup.
    pub fn finish_standalone_resolve(&mut self, key: u64, outcome: TcpLookup, now: u64)
        requires
            old(self).wf(),
        ensures
            final(self).wf(),
            final(self)@ == tcp_located(old(self)@, key, outcome@, now),
    {
        proof {
            lemma_lookup_taken(self@, key);
        }
        let lookup = match self.lookups.remove(key) {
            Some(lookup) => lookup,
            None => {
                return;
            },
        };
        let id = lookup.purpose.request_id;
        if has_passed(lookup.connect_deadline, now) {
            self.fail(id, standalone_connect_timeout());
            return;
        }
        match outcome {
            TcpLookup::Abandoned => {},
            TcpLookup::Answer(addresses) => {
                if addresses.len() > 0 {
                    let remaining = with_port(&addresses, lookup.port);
                    self.start_standalone_attempt(
                        StandalonePending {
                            purpose: lookup.purpose,
                            remaining,
                            connect_deadline: lookup.connect_deadline,
                        },
                        now,
                    );
                } else {
                    self.fail(
                        id,
                        Error::transport(
                            TransportStage::Dns,
                            "the standalone TCP hostname resolved without a usable address",
                        ),
                    );
                }
            },
            TcpLookup::NameNotFound => {
                self.fail(
                    id,
                    Error::transport(
                        TransportStage::Dns,
                        "the standalone TCP hostname does not exist",
                    ),
                );
            },
            TcpLookup::NoData => {
                self.fail(
                    id,
                    Error::transport(
                        TransportStage::Dns,
                        "the standalone TCP hostname has no usable address data",
                    ),
                );
            },
            TcpLookup::Failed(error) => {
                self.fail(id, error);
            },
        }
    }

    /// Stops the lookups that take too long.
    pub fn expire_standalone_resolves(&mut self, now: u64)
        requires
            old(self).wf(),
        ensures
            final(self).wf(),
            final(self)@ == tcp_lookups_expired(old(self)@, now, 0),
    {
        let mut index: usize = 0;
        while index < self.lookups.len()
            invariant
                self.wf(),
                index <= self@.lookups.len(),
                tcp_lookups_expired(old(self)@, now, 0) == tcp_lookups_expired(
                    self@,
                    now,
                    index as nat,
                ),
            decreases self@.lookups.len() - index,
        {
            if has_passed(self.lookups.item_at(index).connect_deadline, now) {
                let key = self.lookups.id_at(index);
                proof {
                    lemma_position_at(self@.lookups, index as int);
                    lemma_lookup_taken(self@, key);
                }
                if let Some(lookup) = self.lookups.remove(key) {
                    self.ask(TcpEffect::CancelLocate { key });
                    self.fail(lookup.purpose.request_id, standalone_connect_timeout());
                }
            } else {
                index += 1;
            }
        }
    }
}

/// Joins addresses with a port.
fn with_port(addresses: &Vec<Vec<u8>>, port: u16) -> (result: Queue<Endpoint>)
    ensures
        result@ == endpoints(address_views(addresses@), port),
{
    let mut joined: Queue<Endpoint> = Queue::new();
    let ghost views = address_views(addresses@);
    let mut i: usize = 0;
    while i < addresses.len()
        invariant
            i <= addresses@.len(),
            views == address_views(addresses@),
            joined@ == endpoints(views.take(i as int), port),
        decreases addresses@.len() - i,
    {
        joined.push(Endpoint { host: copy_bytes(addresses[i].as_slice()), port });
        assert(joined@ =~= endpoints(views.take(i + 1), port));
        i += 1;
    }
    assert(views.take(i as int) =~= views);
    joined
}

} // verus!
