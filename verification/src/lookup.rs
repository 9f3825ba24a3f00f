//! From a request to its connection: submission, the address of its host, and the first bytes.

use crate::backend::{
    backend_holds, emitted, lemma_resolve_taken, lemma_transfer_added, released, reported,
    BackendView, Effect, EffectView, NativeHttpBackend,
};
use crate::config::receive_bound;
use crate::deadline::{deadline_after, due, has_passed, is_past};
use crate::dispatch::{outbound_limit_of, pending_outbound, pending_started};
use crate::failure::{expired, expired_error};
use crate::origin::Scheme;
use crate::pending::{
    accepted_deadlines, deadlines_from, make_pending, pending_deadline, pending_failed,
    pending_made, pending_timeout, start_transfer, started, PendingResolve, PendingResponse,
    PendingResponseView, PendingView,
};
use crate::pool::{KeyView, TlsPhase};
use crate::stream::ResponseSink;
use crate::table::{found, holds, lemma_position, lemma_position_at, without_id};
use crate::types::{
    copy_bytes, plain_error, transport_error, Error, ErrorKind, ErrorView, Request, RequestView,
    TransportStage,
};
use crate::upload::UploadBody;
use vstd::prelude::*;
use vstd::string::*;

verus! {

/// What looking up a host led to. Addresses are texts that the socket layer understands.
#[derive(Debug)]
pub enum LookupOutcome {
    Answer(Vec<Vec<u8>>),
    Failed(String),
    /// There is no resolver, and the host is not an address.
    Unavailable,
}

/// What a [`LookupOutcome`] says, as far as it matters: the first address.
pub enum LookupView {
    Answer(Option<Seq<u8>>),
    Failed(Seq<char>),
    Unavailable,
}

impl View for LookupOutcome {
    type V = LookupView;

    open spec fn view(&self) -> LookupView {
        match self {
            LookupOutcome::Answer(addresses) => LookupView::Answer(
                if addresses@.len() > 0 {
                    Some(addresses@[0]@)
                } else {
                    None
                },
            ),
            LookupOutcome::Failed(message) => LookupView::Failed(message@),
            LookupOutcome::Unavailable => LookupView::Unavailable,
        }
    }
}

/// What TLS does on a new connection to a scheme.
pub open spec fn opening_tls(scheme: Scheme) -> Option<TlsPhase> {
    match scheme {
        Scheme::Https => Some(TlsPhase { handshaking: true, request_encrypted: false }),
        Scheme::Http => None,
    }
}

/// A request ends with an error, and so does its lease.
pub open spec fn given_up(backend: BackendView, pending: PendingView, error: ErrorView) -> BackendView {
    reported(
        released(backend, pending.key),
        pending.request_id,
        pending_failed(pending.response, error),
    )
}

/// A request with a lease goes out on a new connection.
#[verifier::opaque]
pub open spec fn connection_begun(
    backend: BackendView,
    pending: PendingView,
    address: Seq<u8>,
    now: u64,
) -> BackendView {
    if pending.scheme is Https && !backend.has_tls {
        given_up(
            backend,
            pending,
            plain_error(
                ErrorKind::Unsupported,
                "the selected native proving Engine has no TLS configuration"@,
            ),
        )
    } else if backend.next_slot == u64::MAX {
        given_up(
            backend,
            pending,
            plain_error(
                ErrorKind::Internal,
                "the native connection identity space is exhausted"@,
            ),
        )
    } else {
        let slot = backend.next_slot;
        let transfer = started(
            pending,
            false,
            opening_tls(pending.scheme),
            due(now, pending.inactivity_timeout),
            backend.limits,
        );
        emitted(
            BackendView {
                next_slot: (slot + 1) as u64,
                transfers: backend.transfers.push((slot, transfer)),
                ..backend
            },
            EffectView::Connect {
                slot,
                address,
                port: pending.port,
                host: pending.host,
                tls: match pending.scheme {
                    Scheme::Https => Some(pending.tls_verification),
                    Scheme::Http => None,
                },
                deadline: pending_deadline(pending),
                outbound_limit: pending_outbound(pending, pending.scheme is Https),
                receive_limit: receive_bound(backend.limits),
                bytes: pending.serialized.bytes,
            },
        )
    }
}

/// A lookup ended.
pub open spec fn located(backend: BackendView, key: u64, outcome: LookupView, now: u64) -> BackendView {
    if !holds(backend.resolves, key) {
        backend
    } else {
        let pending = found(backend.resolves, key);
        let taken = BackendView { resolves: without_id(backend.resolves, key), ..backend };
        match outcome {
            LookupView::Answer(Some(address)) => connection_begun(taken, pending, address, now),
            LookupView::Answer(None) => given_up(
                taken,
                pending,
                transport_error(
                    TransportStage::Dns,
                    "the native resolver returned no usable address"@,
                ),
            ),
            LookupView::Failed(message) => given_up(
                taken,
                pending,
                transport_error(TransportStage::Dns, message),
            ),
            LookupView::Unavailable => given_up(
                taken,
                pending,
                plain_error(
                    ErrorKind::Unsupported,
                    "the native HTTP proving Engine requires an injected resolver for hostnames"@,
                ),
            ),
        }
    }
}

/// Lookups, from a position on, whose requests are too late end.
pub open spec fn lookups_expired(backend: BackendView, now: u64, from: nat) -> BackendView
    decreases backend.resolves.len() - from,
{
    if from >= backend.resolves.len() {
        backend
    } else {
        let (key, pending) = backend.resolves[from as int];
        if is_past(pending_deadline(pending), now) {
            lookups_expired(
                given_up(
                    emitted(
                        BackendView { resolves: backend.resolves.remove(from as int), ..backend },
                        EffectView::CancelLocate { key },
                    ),
                    pending,
                    expired(pending_timeout(pending, now)),
                ),
                now,
                from,
            )
        } else {
            lookups_expired(backend, now, from + 1)
        }
    }
}

/// A request is submitted.
pub open spec fn submitted(
    backend: BackendView,
    id: u64,
    request: RequestView,
    response: PendingResponseView,
    accepted_at: u64,
    now: u64,
) -> BackendView {
    match pending_made(
        backend.limits,
        id,
        request,
        accepted_deadlines(request.options, accepted_at),
        0,
        ErrorKind::InvalidRequest,
        response,
    ) {
        Err(error) => reported(backend, id, pending_failed(response, error)),
        Ok(pending) => pending_started(backend, pending, now),
    }
}

impl NativeHttpBackend {
    /// Ends a request whose lease is held.
    fn give_up(&mut self, pending: PendingResolve, error: Error)
        requires
            backend_holds(old(self)@, seq![pending@.key]),
            pending.wf(),
        ensures
            final(self).wf(),
            final(self)@ == given_up(old(self)@, pending@, error@),
    {
        self.release_held(&pending.key);
        let id = pending.request_id;
        let completion = pending.fail(error);
        self.report(id, completion);
    }

    /// Sends a request with a lease on a new connection.
    fn begin_connection(&mut self, pending: PendingResolve, address: Vec<u8>, now: u64)
        requires
            backend_holds(old(self)@, seq![pending@.key]),
            pending.wf(),
        ensures
            final(self).wf(),
            final(self)@ == connection_begun(old(self)@, pending@, address@, now),
    {
        reveal(connection_begun);
        let secure = match pending.scheme {
            Scheme::Https => true,
            Scheme::Http => false,
        };
        if secure && !self.has_tls {
            self.give_up(
                pending,
                Error::new(
                    ErrorKind::Unsupported,
                    "the selected native proving Engine has no TLS configuration",
                ),
            );
            return;
        }
        if self.next_slot == u64::MAX {
            self.give_up(
                pending,
                Error::new(
                    ErrorKind::Internal,
                    "the native connection identity space is exhausted",
                ),
            );
            return;
        }
        let slot = self.next_slot;
        let deadline = pending.next_deadline();
        let outbound_limit = outbound_limit_of(&pending, secure);
        let receive_limit = self.limits.reactor_receive_limit();
        let port = pending.port;
        let host = copy_bytes(pending.host.as_slice());
        let (phase, verification) = if secure {
            (
                Some(TlsPhase { handshaking: true, request_encrypted: false }),
                Some(pending.tls_verification),
            )
        } else {
            (None, None)
        };
        let inactivity = deadline_after(now, pending.inactivity_timeout);
        let (transfer, bytes) = start_transfer(pending, false, phase, inactivity, self.limits);
        self.next_slot = slot + 1;
        proof {
            lemma_fresh_slot(old(self)@, self@, transfer@.exchange.key);
            lemma_transfer_added(self@, slot, transfer@);
        }
        self.transfers.insert(slot, transfer);
        self.emit(
            Effect::Connect {
                slot,
                address,
                port,
                host,
                tls: verification,
                deadline,
                outbound_limit,
                receive_limit,
                bytes,
            },
        );
    }

    /// Takes the end of a lookup.
    pub fn finish_lookup(&mut self, key: u64, outcome: LookupOutcome, now: u64)
        requires
            old(self).wf(),
        ensures
            final(self).wf(),
            final(self)@ == located(old(self)@, key, outcome@, now),
    {
        proof {
            if holds(self@.resolves, key) {
                lemma_resolve_taken(self@, key);
            }
        }
        let pending = match self.resolves.remove(key) {
            Some(pending) => pending,
            None => {
                return;
            },
        };
        match outcome {
            LookupOutcome::Answer(addresses) => {
                if addresses.len() > 0 {
                    let address = copy_bytes(addresses[0].as_slice());
                    self.begin_connection(pending, address, now);
                } else {
                    self.give_up(
                        pending,
                        Error::transport(
                            TransportStage::Dns,
                            "the native resolver returned no usable address",
                        ),
                    );
                }
            },
            LookupOutcome::Failed(message) => {
                self.give_up(
                    pending,
                    Error::transport(TransportStage::Dns, message.as_str()),
                );
            },
            LookupOutcome::Unavailable => {
                self.give_up(
                    pending,
                    Error::new(
                        ErrorKind::Unsupported,
                        "the native HTTP proving Engine requires an injected resolver for hostnames",
                    ),
                );
            },
        }
    }

    /// Ends the lookups whose requests are too late.
    pub fn expire_resolves(&mut self, now: u64)
        requires
            old(self).wf(),
        ensures
            final(self).wf(),
            final(self)@ == lookups_expired(old(self)@, now, 0),
    {
        let mut index: usize = 0;
        while index < self.resolves.len()
            invariant
                self.wf(),
                index <= self@.resolves.len(),
                lookups_expired(old(self)@, now, 0) == lookups_expired(self@, now, index as nat),
            decreases self@.resolves.len() - index,
        {
            if has_passed(self.resolves.item_at(index).next_deadline(), now) {
                let key = self.resolves.id_at(index);
                proof {
                    lemma_position_at(self@.resolves, index as int);
                    lemma_resolve_taken(self@, key);
                }
                if let Some(pending) = self.resolves.remove(key) {
                    self.emit(Effect::CancelLocate { key });
                    let error = expired_error(pending.expired_timeout(now));
                    self.give_up(pending, error);
                }
            } else {
                index += 1;
            }
        }
    }

    /// Takes a request whose response is held in memory.
    pub fn submit(&mut self, id: u64, request: Request, accepted_at: u64, now: u64)
        requires
            old(self).wf(),
        ensures
            final(self).wf(),
            final(self)@ == submitted(
                old(self)@,
                id,
                request@,
                PendingResponseView::Buffered,
                accepted_at,
                now,
            ),
    {
        self.submit_with(id, request, PendingResponse::Buffered, accepted_at, now);
    }

    /// Takes a request whose response is delivered through a sink, and whose body may be streamed.
    pub fn submit_stream(
        &mut self,
        id: u64,
        request: Request,
        upload: Option<UploadBody>,
        response: ResponseSink,
        accepted_at: u64,
        now: u64,
    )
        requires
            old(self).wf(),
            response.wf(),
            upload matches Some(body) ==> body.wf(),
        ensures
            final(self).wf(),
            final(self)@ == submitted(
                old(self)@,
                id,
                request@,
                PendingResponseView::Streaming {
                    response: response@,
                    upload: crate::pending::body_view(upload),
                },
                accepted_at,
                now,
            ),
    {
        self.submit_with(
            id,
            request,
            PendingResponse::Streaming { response, upload },
            accepted_at,
            now,
        );
    }

    fn submit_with(
        &mut self,
        id: u64,
        request: Request,
        response: PendingResponse,
        accepted_at: u64,
        now: u64,
    )
        requires
            old(self).wf(),
            response.wf(),
        ensures
            final(self).wf(),
            final(self)@ == submitted(old(self)@, id, request@, response@, accepted_at, now),
    {
        let deadlines = deadlines_from(&request.options, accepted_at);
        match make_pending(
            self.limits,
            id,
            request,
            deadlines,
            0,
            ErrorKind::InvalidRequest,
            response,
        ) {
            Ok(pending) => {
                self.start_pending(pending, now);
            },
            Err((error, response)) => {
                let completion = response.fail(error);
                self.report(id, completion);
            },
        }
    }
}

proof fn lemma_fresh_slot(before: BackendView, after: BackendView, lease: KeyView)
    requires
        backend_holds(before, seq![lease]),
        before.next_slot < u64::MAX,
        after == (BackendView { next_slot: (before.next_slot + 1) as u64, ..before }),
    ensures
        backend_holds(after, seq![lease]),
        !holds(after.transfers, before.next_slot),
        forall|j: int|
            0 <= j < after.pool.idle.len() ==> (#[trigger] after.pool.idle[j]).slot
                != before.next_slot,
{
    lemma_position(after.transfers, before.next_slot);
}

} // verus!
