//! What holds of every exchange that ends, and of every one that goes on: what is reported, what is
//! asked of the socket layer, and how a redirect continues.

use crate::backend::{BackendView, EffectView};
use crate::engine::{
    continued, finished, followed, parked, response_completed, settled, stream_completed,
};
use crate::exchange::{exchange_deadline, ExchangeView};
use crate::origin::origin_of;
use crate::pending::{pending_made, CompletionView, PendingResponseView};
use crate::redirect::{redirect_target, redirected};
use crate::redirect_laws::lemma_other_responses_stand;
use crate::step::Step;
use crate::stream::{SinkEndView, SinkView};
use crate::tcp_laws::falls_due;
use crate::text::wire;
use crate::transfer::{OutcomeView, StreamTransferView, TransferResponseView, TransferView};
use crate::types::{plain_error, ErrorKind, ErrorView, RequestView, ResponseView};
use vstd::prelude::*;
use vstd::string::*;

verus! {

/// A response that is no redirect, or points nowhere, is reported as it is, once, under the number of
/// its request.
pub proof fn lemma_responses_are_reported(
    backend: BackendView,
    slot: u64,
    transfer: TransferView,
    response: ResponseView,
    permits_reuse: bool,
    now: u64,
)
    requires
        (response.status != 301 && response.status != 302 && response.status != 303
            && response.status != 307 && response.status != 308) || redirect_target(
            transfer.exchange.request.url,
            response.headers,
        ) == Ok::<Option<Seq<char>>, ErrorView>(None) || ((response.status == 301
            || response.status == 302) && !(transfer.exchange.request.method is Get) && !(
        transfer.exchange.request.method is Head)),
    ensures
        response_completed(backend, slot, transfer, response, permits_reuse, now) == (BackendView {
            done: backend.done.push(
                (transfer.exchange.request_id, CompletionView::Completed(response)),
            ),
            ..parked(backend, slot, transfer.exchange, permits_reuse, now)
        }),
{
    reveal(response_completed);
    reveal(parked);
    lemma_other_responses_stand(
        transfer.exchange.request,
        response.status,
        transfer.exchange.redirect_hops,
        redirect_target(transfer.exchange.request.url, response.headers),
    );
}

/// The request that follows a redirect is made ready like any other, one redirect further, for the same
/// owner; its connect and inactivity timeouts count anew, and its total deadline stays.
pub proof fn lemma_redirects_continue(
    backend: BackendView,
    exchange: ExchangeView,
    request: RequestView,
    response: PendingResponseView,
    now: u64,
)
    requires
        exchange.redirect_hops < 255,
    ensures
        ({
            let deadlines = crate::pending::PendingDeadlines {
                connect: crate::deadline::due(now, request.options.connect_timeout),
                total: exchange.total_deadline,
                inactivity: crate::deadline::due(now, request.options.inactivity_timeout),
            };
            let made = pending_made(
                backend.limits,
                exchange.request_id,
                request,
                deadlines,
                (exchange.redirect_hops + 1) as u8,
                ErrorKind::Redirect,
                response,
            );
            &&& made matches Ok(pending) ==> {
                &&& followed(backend, exchange, request, response, now)
                    == crate::dispatch::pending_started(backend, pending, now)
                &&& pending.request_id == exchange.request_id
                &&& pending.redirect_hops == exchange.redirect_hops + 1
                &&& pending.request == request
                &&& pending.total_deadline == exchange.total_deadline
                &&& falls_due(pending.connect_deadline, now, request.options.connect_timeout)
                &&& falls_due(pending.inactivity_deadline, now, request.options.inactivity_timeout)
            }
            &&& made matches Err(error) ==> followed(backend, exchange, request, response, now) == (
            BackendView {
                done: backend.done.push(
                    (
                        exchange.request_id,
                        crate::dispatch_laws::told_of(response, error),
                    ),
                ),
                ..backend
            })
        }),
{
}

/// A redirect of a response held in memory is followed, not reported: nothing is reported but what the
/// request that follows leads to.
pub proof fn lemma_redirected_responses_are_followed(
    backend: BackendView,
    slot: u64,
    transfer: TransferView,
    response: ResponseView,
    permits_reuse: bool,
    now: u64,
    target: Seq<char>,
)
    requires
        response.status == 301 || response.status == 302 || response.status == 303
            || response.status == 307 || response.status == 308,
        transfer.exchange.request.method is Get || transfer.exchange.request.method is Head,
        redirect_target(transfer.exchange.request.url, response.headers) == Ok::<
            Option<Seq<char>>,
            ErrorView,
        >(Some(target)),
        origin_of(wire(target)) is Some,
        transfer.exchange.redirect_hops < transfer.exchange.request.options.redirect_limit,
    ensures
        redirected(
            transfer.exchange.request,
            response.status,
            transfer.exchange.redirect_hops,
            Ok(Some(target)),
        ) matches Ok(Some(request)) && request.url == target && request.method
            == transfer.exchange.request.method && response_completed(
            backend,
            slot,
            transfer,
            response,
            permits_reuse,
            now,
        ) == followed(
            parked(backend, slot, transfer.exchange, permits_reuse, now),
            transfer.exchange,
            request,
            PendingResponseView::Buffered,
            now,
        ),
{
    reveal(response_completed);
}

/// A connection is kept only where the response permits it, the peer has not closed it, and it does
/// not fail in the same batch.
pub proof fn lemma_completed_responses_free_their_connection(
    backend: BackendView,
    slot: u64,
    step: Step,
    armed: bool,
    now: u64,
)
    ensures
        step.outcome matches OutcomeView::Completed { response, permits_reuse, peer_closed }
            ==> settled(backend, slot, step, armed, now) == response_completed(
            backend,
            slot,
            step.transfer,
            response,
            permits_reuse && !peer_closed && armed,
            now,
        ),
        step.outcome matches OutcomeView::StreamComplete { permits_reuse, peer_closed } ==> settled(
            backend,
            slot,
            step,
            armed,
            now,
        ) == stream_completed(
            backend,
            slot,
            step.transfer,
            permits_reuse && !peer_closed && armed,
            now,
        ),
{
}

/// The owner of an exchange that failed learns the error, once: by the report, or at the end of what
/// was delivered so far. A response that ended with its connection is reported as it is.
pub proof fn lemma_failures_are_reported(
    backend: BackendView,
    slot: u64,
    step: Step,
    armed: bool,
    now: u64,
)
    ensures
        ({
            let next = settled(backend, slot, step, armed, now);
            let id = step.transfer.exchange.request_id;
            &&& step.outcome matches OutcomeView::Failed(error) ==> match step.transfer.response {
                TransferResponseView::Buffered(_) => next.done == backend.done.push(
                    (id, CompletionView::Failed(error)),
                ),
                TransferResponseView::Streaming(stream) => stream.decoder.response matches Some(sink)
                    ==> next.done == backend.done.push(
                    (
                        id,
                        CompletionView::Delivered(
                            if sink.end is None {
                                SinkView { end: Some(SinkEndView::Failed(error)), ..sink }
                            } else {
                                sink
                            },
                        ),
                    ),
                ),
            }
            &&& step.transfer.response is Buffered ==> (step.outcome matches OutcomeView::Finished(
                response,
            ) ==> next.done == backend.done.push((id, CompletionView::Completed(response)))
                && next.effects == backend.effects.push(EffectView::Close { slot }))
        }),
{
    reveal(finished);
}

/// An exchange that goes on keeps its connection. What it has to send is sent, its next deadline is set,
/// and how much may be read is said where it depends on a reader; nothing is asked of a connection that
/// is known to have failed.
pub proof fn lemma_running_exchanges_go_on(
    backend: BackendView,
    slot: u64,
    step: Step,
    now: u64,
)
    requires
        step.outcome is Running,
    ensures
        ({
            let next = settled(backend, slot, step, true, now);
            let silent = settled(backend, slot, step, false, now);
            let sent = if step.outbound.len() > 0 {
                backend.effects.push(EffectView::Send { slot, bytes: step.outbound })
            } else {
                backend.effects
            };
            let timed = sent.push(
                EffectView::SetDeadline {
                    slot,
                    deadline: exchange_deadline(step.transfer.exchange),
                },
            );
            &&& next.transfers == backend.transfers.push((slot, step.transfer))
            &&& next.effects == match step.allowance {
                Some(allowance) => timed.push(EffectView::SetReadAllowance { slot, allowance }),
                None => timed,
            }
            &&& next.done == backend.done
            &&& next.pool == backend.pool
            &&& silent.transfers == next.transfers
            &&& silent.effects == backend.effects
            &&& silent.done == backend.done
        }),
{
    reveal(continued);
}

/// A delivered response that is complete goes back to its owner; its connection is kept or closed like
/// any other.
pub proof fn lemma_delivered_responses_are_handed_back(
    backend: BackendView,
    slot: u64,
    transfer: TransferView,
    stream: StreamTransferView,
    sink: SinkView,
    permits_reuse: bool,
    now: u64,
)
    requires
        transfer.response == TransferResponseView::Streaming(stream),
        stream.redirect is None,
        stream.decoder.response == Some(sink),
    ensures
        stream_completed(backend, slot, transfer, permits_reuse, now) == (BackendView {
            done: backend.done.push(
                (transfer.exchange.request_id, CompletionView::Delivered(sink)),
            ),
            ..parked(backend, slot, transfer.exchange, permits_reuse, now)
        }),
{
    reveal(stream_completed);
    reveal(parked);
}

/// A redirect of a response that would have been delivered is followed in silence: once all of it was
/// passed over, the request that follows gets the reader, and nothing is reported.
pub proof fn lemma_hidden_redirects_are_followed(
    backend: BackendView,
    slot: u64,
    transfer: TransferView,
    stream: StreamTransferView,
    sink: SinkView,
    request: RequestView,
    permits_reuse: bool,
    now: u64,
)
    requires
        transfer.response == TransferResponseView::Streaming(stream),
        stream.redirect == Some(request),
        stream.decoder.response == Some(sink),
        stream.decoder.frame.state is Complete,
        stream.decoder.output is Discard,
    ensures
        stream_completed(backend, slot, transfer, permits_reuse, now) == followed(
            parked(backend, slot, transfer.exchange, permits_reuse, now),
            transfer.exchange,
            request,
            PendingResponseView::Streaming { response: sink, upload: None },
            now,
        ),
{
    reveal(stream_completed);
}

/// A redirect that cannot be followed ends the request with the reason: its limit was reached, its
/// target is not an HTTP or HTTPS URL, or it cannot be told where it points to.
pub proof fn lemma_failed_redirects_are_reported(
    backend: BackendView,
    slot: u64,
    transfer: TransferView,
    response: ResponseView,
    permits_reuse: bool,
    now: u64,
)
    requires
        response.status == 303 || response.status == 307 || response.status == 308 || ((
        response.status == 301 || response.status == 302) && (
        transfer.exchange.request.method is Get || transfer.exchange.request.method is Head)),
    ensures
        ({
            let exchange = transfer.exchange;
            let pointed = redirect_target(exchange.request.url, response.headers);
            let next = response_completed(backend, slot, transfer, response, permits_reuse, now);
            let told = |error: ErrorView|
                BackendView {
                    done: backend.done.push((exchange.request_id, CompletionView::Failed(error))),
                    ..parked(backend, slot, exchange, permits_reuse, now)
                };
            &&& pointed matches Err(error) ==> next == told(error)
            &&& pointed matches Ok(Some(target)) ==> {
                &&& exchange.redirect_hops >= exchange.request.options.redirect_limit ==> next == told(
                    plain_error(ErrorKind::Redirect, "the redirect limit was reached"@),
                )
                &&& exchange.redirect_hops < exchange.request.options.redirect_limit && origin_of(
                    wire(target),
                ) is None ==> next == told(
                    plain_error(
                        ErrorKind::Redirect,
                        "the redirect target is not an HTTP or HTTPS URL"@,
                    ),
                )
            }
        }),
{
    reveal(response_completed);
    reveal(parked);
}

} // verus!
