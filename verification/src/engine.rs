//! What becomes of exchanges: how they end, what their connections are used for afterwards, and
//! where redirects lead.

use crate::backend::{
    backend_holds, emitted, lemma_parked, lemma_transfer_added, released, reported, BackendView,
    Effect, EffectView, NativeHttpBackend,
};
use crate::deadline::{deadline_after, due};
use crate::dispatch::pending_started;
use crate::exchange::{exchange_deadline, Exchange, ExchangeView};
use crate::pending::{
    deadlines_after_redirect, make_pending, pending_failed, pending_made, redirect_deadlines,
    Completion, CompletionView, PendingResponse, PendingResponseView,
};
use crate::pool::{may_park, rested, ConnectionKey, IdleView, KeyView};
use crate::redirect::{redirect_target, redirected, redirected_request, resolved_redirect_target};
use crate::step::{Step, StepResult};
use crate::stream::{sink_finish, ResponseSink, SinkEndView, SinkView};
use crate::stream_decoder::{refused_transfer, StreamView};
use crate::table::holds;
use crate::transfer::{
    transfer_sink_ok, HttpTransfer, OutcomeView, TransferOutcome, TransferResponse,
    TransferResponseView, TransferView,
};
use crate::types::{
    plain_error, Error, ErrorKind, ErrorView, Request, RequestView, Response, ResponseView,
};
use vstd::prelude::*;
use vstd::string::*;

verus! {

/// How an exchange is ended.
#[derive(Debug)]
pub enum Ending {
    Completed(Response),
    Failed(Error),
    Cancelled,
}

/// What an [`Ending`] says.
pub enum EndingView {
    Completed(ResponseView),
    Failed(ErrorView),
    Cancelled,
}

impl View for Ending {
    type V = EndingView;

    open spec fn view(&self) -> EndingView {
        match self {
            Ending::Completed(response) => EndingView::Completed(response@),
            Ending::Failed(error) => EndingView::Failed(error@),
            Ending::Cancelled => EndingView::Cancelled,
        }
    }
}

/// A sink, where there is one, is handed back.
pub open spec fn delivered(backend: BackendView, id: u64, sink: Option<SinkView>) -> BackendView {
    match sink {
        Some(sink) => reported(backend, id, CompletionView::Delivered(sink)),
        None => backend,
    }
}

/// A sink, where there is one, after delivery failed.
pub open spec fn failed_sink(sink: Option<SinkView>, error: ErrorView) -> Option<SinkView> {
    match sink {
        Some(sink) => Some(sink_finish(sink, SinkEndView::Failed(error))),
        None => None,
    }
}

/// The error with which a response that is delivered ends.
pub open spec fn stream_ending(ending: EndingView) -> ErrorView {
    match ending {
        EndingView::Failed(error) => error,
        EndingView::Cancelled => plain_error(
            ErrorKind::Internal,
            "native streaming transport cancelled without registry arbitration"@,
        ),
        EndingView::Completed(_) => plain_error(
            ErrorKind::Internal,
            "native streaming transport produced a buffered completion"@,
        ),
    }
}

/// The connection of an exchange is given up.
pub open spec fn closed(backend: BackendView, slot: u64, key: KeyView) -> BackendView {
    emitted(released(backend, key), EffectView::Close { slot })
}

/// An exchange, taken out of the engine, ends; its connection is given up.
#[verifier::opaque]
pub open spec fn finished(
    backend: BackendView,
    slot: u64,
    transfer: TransferView,
    ending: EndingView,
) -> BackendView {
    let gone = closed(backend, slot, transfer.exchange.key);
    let id = transfer.exchange.request_id;
    match transfer.response {
        TransferResponseView::Buffered(_) => reported(
            gone,
            id,
            match ending {
                EndingView::Completed(response) => CompletionView::Completed(response),
                EndingView::Failed(error) => CompletionView::Failed(error),
                EndingView::Cancelled => CompletionView::Cancelled,
            },
        ),
        TransferResponseView::Streaming(stream) => delivered(
            gone,
            id,
            failed_sink(stream.decoder.response, stream_ending(ending)),
        ),
    }
}

/// The connection of an exchange that ended becomes idle where both sides permit it, everything was
/// written and the limits allow it; otherwise it is given up.
#[verifier::opaque]
pub open spec fn parked(
    backend: BackendView,
    slot: u64,
    exchange: ExchangeView,
    permits_reuse: bool,
    now: u64,
) -> BackendView {
    let reusable = permits_reuse && exchange.request_permits_reuse
        && exchange.request_write_drained && may_park(backend.pool, exchange.key);
    match due(now, Some(backend.pool.limits.idle_timeout)) {
        Some(expires_at) if reusable => emitted(
            BackendView {
                pool: rested(
                    backend.pool,
                    IdleView {
                        slot,
                        key: exchange.key,
                        tls: exchange.tls,
                        expires_at,
                        noisy: false,
                    },
                ),
                ..backend
            },
            EffectView::SetDeadline { slot, deadline: Some(expires_at) },
        ),
        _ => closed(backend, slot, exchange.key),
    }
}

/// One more redirect; the count does not wrap.
pub open spec fn one_more(hops: u8) -> u8 {
    if hops == u8::MAX {
        hops
    } else {
        (hops + 1) as u8
    }
}

/// A request follows a redirect. The total deadline stays that of the first request.
pub open spec fn followed(
    backend: BackendView,
    exchange: ExchangeView,
    request: RequestView,
    response: PendingResponseView,
    now: u64,
) -> BackendView {
    match pending_made(
        backend.limits,
        exchange.request_id,
        request,
        redirect_deadlines(request.options, exchange.total_deadline, now),
        one_more(exchange.redirect_hops),
        ErrorKind::Redirect,
        response,
    ) {
        Err(error) => reported(backend, exchange.request_id, pending_failed(response, error)),
        Ok(pending) => pending_started(backend, pending, now),
    }
}

/// A response that was held in memory is complete.
#[verifier::opaque]
pub open spec fn response_completed(
    backend: BackendView,
    slot: u64,
    transfer: TransferView,
    response: ResponseView,
    permits_reuse: bool,
    now: u64,
) -> BackendView {
    let exchange = transfer.exchange;
    let after = parked(backend, slot, transfer.exchange, permits_reuse, now);
    match redirected(
        exchange.request,
        response.status,
        exchange.redirect_hops,
        redirect_target(exchange.request.url, response.headers),
    ) {
        Ok(None) => reported(after, exchange.request_id, CompletionView::Completed(response)),
        Err(error) => reported(after, exchange.request_id, CompletionView::Failed(error)),
        Ok(Some(request)) => followed(
            after,
            exchange,
            request,
            PendingResponseView::Buffered,
            now,
        ),
    }
}

/// Whether a discarded response leaves its sink for the next one.
pub open spec fn sink_is_free(stream: StreamView) -> bool {
    stream.frame.state is Complete && stream.output is Discard && stream.response is Some
}

/// A response that was delivered, or discarded on a redirect, is complete.
#[verifier::opaque]
pub open spec fn stream_completed(
    backend: BackendView,
    slot: u64,
    transfer: TransferView,
    permits_reuse: bool,
    now: u64,
) -> BackendView {
    let id = transfer.exchange.request_id;
    match transfer.response {
        TransferResponseView::Buffered(_) => parked(backend, slot, transfer.exchange, permits_reuse, now),
        TransferResponseView::Streaming(stream) => match stream.redirect {
            None => delivered(
                parked(backend, slot, transfer.exchange, permits_reuse, now),
                id,
                stream.decoder.response,
            ),
            Some(request) => if sink_is_free(stream.decoder) {
                followed(
                    parked(backend, slot, transfer.exchange, permits_reuse, now),
                    transfer.exchange,
                    request,
                    PendingResponseView::Streaming {
                        response: stream.decoder.response->0,
                        upload: None,
                    },
                    now,
                )
            } else {
                delivered(
                    parked(backend, slot, transfer.exchange, false, now),
                    id,
                    failed_sink(stream.decoder.response, refused_transfer(stream.decoder)),
                )
            },
        },
    }
}

/// An exchange that was taken out goes on: it is put back, and the socket layer is told what goes
/// out, when to wake up and how much to read. Nothing is asked of a connection that failed.
#[verifier::opaque]
pub open spec fn continued(backend: BackendView, slot: u64, step: Step, armed: bool) -> BackendView {
    let back = BackendView { transfers: backend.transfers.push((slot, step.transfer)), ..backend };
    if !armed {
        back
    } else {
        let sent = if step.outbound.len() > 0 {
            emitted(back, EffectView::Send { slot, bytes: step.outbound })
        } else {
            back
        };
        let timed = emitted(
            sent,
            EffectView::SetDeadline { slot, deadline: exchange_deadline(step.transfer.exchange) },
        );
        match step.allowance {
            Some(allowance) => emitted(timed, EffectView::SetReadAllowance { slot, allowance }),
            None => timed,
        }
    }
}

/// What a step of an exchange, taken out of the engine, leads to. A connection that failed is not
/// kept.
pub open spec fn settled(
    backend: BackendView,
    slot: u64,
    step: Step,
    armed: bool,
    now: u64,
) -> BackendView {
    match step.outcome {
        OutcomeView::Running => continued(backend, slot, step, armed),
        OutcomeView::Failed(error) => finished(
            backend,
            slot,
            step.transfer,
            EndingView::Failed(error),
        ),
        OutcomeView::Finished(response) => finished(
            backend,
            slot,
            step.transfer,
            EndingView::Completed(response),
        ),
        OutcomeView::Completed { response, permits_reuse, peer_closed } => response_completed(
            backend,
            slot,
            step.transfer,
            response,
            permits_reuse && !peer_closed && armed,
            now,
        ),
        OutcomeView::StreamComplete { permits_reuse, peer_closed } => stream_completed(
            backend,
            slot,
            step.transfer,
            permits_reuse && !peer_closed && armed,
            now,
        ),
    }
}

impl NativeHttpBackend {
    /// Gives up the connection of an exchange.
    fn close_connection(&mut self, slot: u64, key: &ConnectionKey)
        requires
            backend_holds(old(self)@, seq![key@]),
        ensures
            final(self).wf(),
            final(self)@ == closed(old(self)@, slot, key@),
    {
        self.release_held(key);
        self.emit(Effect::Close { slot });
    }

    fn deliver(&mut self, id: u64, sink: Option<ResponseSink>)
        ensures
            final(self)@ == delivered(
                old(self)@,
                id,
                crate::stream_decoder::sink_view(sink),
            ),
            old(self).wf() ==> final(self).wf(),
    {
        if let Some(sink) = sink {
            self.report(id, Completion::Delivered(sink));
        }
    }

    /// Ends an exchange that was taken out, and gives up its connection.
    pub(crate) fn finish(&mut self, slot: u64, transfer: HttpTransfer, ending: Ending)
        requires
            backend_holds(old(self)@, seq![transfer@.exchange.key]),
            transfer_sink_ok(transfer@),
        ensures
            final(self).wf(),
            final(self)@ == finished(old(self)@, slot, transfer@, ending@),
    {
        reveal(finished);
        self.close_connection(slot, &transfer.exchange.key);
        let id = transfer.exchange.request_id;
        match transfer.response {
            TransferResponse::Buffered(_) => {
                let completion = match ending {
                    Ending::Completed(response) => Completion::Completed(response),
                    Ending::Failed(error) => Completion::Failed(error),
                    Ending::Cancelled => Completion::Cancelled,
                };
                self.report(id, completion);
            },
            TransferResponse::Streaming(stream) => {
                let error = match ending {
                    Ending::Failed(error) => error,
                    Ending::Cancelled => Error::new(
                        ErrorKind::Internal,
                        "native streaming transport cancelled without registry arbitration",
                    ),
                    Ending::Completed(_) => Error::new(
                        ErrorKind::Internal,
                        "native streaming transport produced a buffered completion",
                    ),
                };
                let mut stream = stream;
                stream.decoder.fail(error);
                self.deliver(id, stream.decoder.response);
            },
        }
    }

    /// Makes the connection of an exchange that ended idle, or gives it up.
    fn park(&mut self, slot: u64, exchange: &Exchange, permits_reuse: bool, now: u64)
        requires
            backend_holds(old(self)@, seq![exchange@.key]),
            slot < old(self)@.next_slot,
            !holds(old(self)@.transfers, slot),
            forall|j: int|
                0 <= j < old(self)@.pool.idle.len() ==> (#[trigger] old(self)@.pool.idle[j]).slot
                    != slot,
        ensures
            final(self).wf(),
            final(self)@ == parked(old(self)@, slot, exchange@, permits_reuse, now),
            final(self)@.limits == old(self)@.limits,
    {
        reveal(parked);
        let reusable = permits_reuse && exchange.request_permits_reuse
            && exchange.request_write_drained && self.pool.can_park(&exchange.key);
        if reusable {
            if let Some(expires_at) = deadline_after(now, Some(self.pool.limits.idle_timeout)) {
                proof {
                    crate::backend::lemma_released(self@, exchange@.key);
                    crate::pool::lemma_slot_position(self@.pool.idle, slot);
                }
                self.pool.park(slot, exchange.key.clone(), exchange.tls, expires_at);
                proof {
                    lemma_parked(
                        old(self)@,
                        IdleView {
                            slot,
                            key: exchange@.key,
                            tls: exchange@.tls,
                            expires_at,
                            noisy: false,
                        },
                        self@.pool,
                    );
                }
                self.emit(Effect::SetDeadline { slot, deadline: Some(expires_at) });
                return;
            }
        }
        self.close_connection(slot, &exchange.key);
    }

    /// Sends the request that follows a redirect.
    fn follow(
        &mut self,
        exchange: &Exchange,
        request: Request,
        response: PendingResponse,
        now: u64,
    )
        requires
            old(self).wf(),
            response.wf(),
        ensures
            final(self).wf(),
            final(self)@ == followed(old(self)@, exchange@, request@, response@, now),
    {
        let id = exchange.request_id;
        let deadlines = deadlines_after_redirect(&request.options, exchange.total_deadline, now);
        let hops = exchange.redirect_hops.saturating_add(1);
        match make_pending(
            self.limits,
            id,
            request,
            deadlines,
            hops,
            ErrorKind::Redirect,
            response,
        ) {
            Ok(pending) => {
                self.start_pending(pending, now);
            },
            Err((error, response)) => {
                let completion = response.fail(error);
                self.report(id, completion);
            },
        }
    }

    /// Takes a complete response that was held in memory, and follows the redirect that it asks for.
    fn complete_response(
        &mut self,
        slot: u64,
        transfer: HttpTransfer,
        response: Response,
        permits_reuse: bool,
        now: u64,
    )
        requires
            backend_holds(old(self)@, seq![transfer@.exchange.key]),
            slot < old(self)@.next_slot,
            !holds(old(self)@.transfers, slot),
            forall|j: int|
                0 <= j < old(self)@.pool.idle.len() ==> (#[trigger] old(self)@.pool.idle[j]).slot
                    != slot,
        ensures
            final(self).wf(),
            final(self)@ == response_completed(
                old(self)@,
                slot,
                transfer@,
                response@,
                permits_reuse,
                now,
            ),
    {
        reveal(response_completed);
        let exchange = transfer.exchange;
        let target = resolved_redirect_target(&exchange.request, &response);
        let redirect = redirected_request(
            &exchange.request,
            response.status,
            exchange.redirect_hops,
            target,
        );
        self.park(slot, &exchange, permits_reuse, now);
        match redirect {
            Ok(None) => {
                self.report(exchange.request_id, Completion::Completed(response));
            },
            Err(error) => {
                self.report(exchange.request_id, Completion::Failed(error));
            },
            Ok(Some(request)) => {
                self.follow(&exchange, request, PendingResponse::Buffered, now);
            },
        }
    }

    /// Takes a complete response that was delivered, or discarded on a redirect that is then
    /// followed.
    fn complete_stream_response(
        &mut self,
        slot: u64,
        transfer: HttpTransfer,
        permits_reuse: bool,
        now: u64,
    )
        requires
            backend_holds(old(self)@, seq![transfer@.exchange.key]),
            transfer_sink_ok(transfer@),
            slot < old(self)@.next_slot,
            !holds(old(self)@.transfers, slot),
            forall|j: int|
                0 <= j < old(self)@.pool.idle.len() ==> (#[trigger] old(self)@.pool.idle[j]).slot
                    != slot,
        ensures
            final(self).wf(),
            final(self)@ == stream_completed(old(self)@, slot, transfer@, permits_reuse, now),
    {
        reveal(stream_completed);
        let exchange = transfer.exchange;
        let id = exchange.request_id;
        let stream = match transfer.response {
            TransferResponse::Streaming(stream) => stream,
            TransferResponse::Buffered(_) => {
                self.park(slot, &exchange, permits_reuse, now);
                return;
            },
        };
        let mut decoder = stream.decoder;
        match stream.redirect {
            None => {
                self.park(slot, &exchange, permits_reuse, now);
                self.deliver(id, decoder.response);
            },
            Some(request) => match decoder.take_response() {
                Ok(sink) => {
                    self.park(slot, &exchange, permits_reuse, now);
                    self.follow(
                        &exchange,
                        request,
                        PendingResponse::Streaming { response: sink, upload: None },
                        now,
                    );
                },
                Err(error) => {
                    decoder.fail(error);
                    self.park(slot, &exchange, false, now);
                    self.deliver(id, decoder.response);
                },
            },
        }
    }

    /// Puts an exchange that was taken out back, and tells the socket layer how it goes on.
    fn go_on(
        &mut self,
        slot: u64,
        transfer: HttpTransfer,
        outbound: Vec<u8>,
        allowance: Option<usize>,
        armed: bool,
        step: Ghost<Step>,
    )
        requires
            backend_holds(old(self)@, seq![transfer@.exchange.key]),
            transfer.wf(),
            slot < old(self)@.next_slot,
            !holds(old(self)@.transfers, slot),
            forall|j: int|
                0 <= j < old(self)@.pool.idle.len() ==> (#[trigger] old(self)@.pool.idle[j]).slot
                    != slot,
            step@.transfer == transfer@,
            step@.outbound == outbound@,
            step@.allowance == crate::step::allowance_view(allowance),
        ensures
            final(self).wf(),
            final(self)@ == continued(old(self)@, slot, step@, armed),
    {
        reveal(continued);
        let deadline = transfer.next_deadline();
        proof {
            lemma_transfer_added(self@, slot, transfer@);
        }
        self.transfers.insert(slot, transfer);
        if !armed {
            return;
        }
        if outbound.len() > 0 {
            self.emit(Effect::Send { slot, bytes: outbound });
        }
        self.emit(Effect::SetDeadline { slot, deadline });
        if let Some(allowance) = allowance {
            self.emit(Effect::SetReadAllowance { slot, allowance });
        }
    }

    /// Takes what a step of an exchange, taken out of the engine, led to.
    pub(crate) fn settle(
        &mut self,
        slot: u64,
        transfer: HttpTransfer,
        result: StepResult,
        armed: bool,
        now: u64,
        step: Ghost<Step>,
    )
        requires
            backend_holds(old(self)@, seq![transfer@.exchange.key]),
            result.is_step(transfer@, step@),
            result.outcome is Running ==> transfer.wf(),
            transfer_sink_ok(transfer@),
            slot < old(self)@.next_slot,
            !holds(old(self)@.transfers, slot),
            forall|j: int|
                0 <= j < old(self)@.pool.idle.len() ==> (#[trigger] old(self)@.pool.idle[j]).slot
                    != slot,
        ensures
            final(self).wf(),
            final(self)@ == settled(old(self)@, slot, step@, armed, now),
    {
        match result.outcome {
            TransferOutcome::Running => {
                self.go_on(slot, transfer, result.outbound, result.allowance, armed, step);
            },
            TransferOutcome::Failed(error) => {
                self.finish(slot, transfer, Ending::Failed(error));
            },
            TransferOutcome::Finished(response) => {
                self.finish(slot, transfer, Ending::Completed(response));
            },
            TransferOutcome::Completed { response, permits_reuse, peer_closed } => {
                let reusable = permits_reuse && !peer_closed && armed;
                self.complete_response(slot, transfer, response, reusable, now);
            },
            TransferOutcome::StreamComplete { permits_reuse, peer_closed } => {
                let reusable = permits_reuse && !peer_closed && armed;
                self.complete_stream_response(slot, transfer, reusable, now);
            },
        }
    }
}

} // verus!
