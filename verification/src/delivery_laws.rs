//! What holds of every response that is delivered piece by piece: how its head is offered, how a
//! redirect is hidden from the reader, and how it ends.

use crate::exchange::{upload_ended, ExchangeView};
use crate::redirect::{redirect_target, redirected};
use crate::step::{event_taken, resumed, EventKindView, EventView, SocketReport};
use crate::stream::{SinkEndView, SinkView};
use crate::stream_decoder::{
    flushed, head_decided, stream_eof, stream_ingest, stream_room, StreamProgressView, StreamView,
};
use crate::stream_laws::lemma_stream_run_bounds;
use crate::transfer::{
    behind, body_ended, close_handled, drain_step, head_offered, head_taken, progress_taken,
    stream_drained, stream_ended, stream_received, DrainView, OutcomeView, StreamTransferView,
    TransferResponseView, TransferView,
};
use crate::types::{
    plain_error, transport_error, ErrorKind, ErrorView, RequestView, ResponseHeadView,
    TransportStage,
};
use vstd::prelude::*;
use vstd::string::*;

verus! {

/// A final head that leads nowhere else is shown to the reader, as long as the reader is there; where no
/// body follows, the response is complete with it. A head that is followed elsewhere is not shown.
pub proof fn lemma_heads_are_shown_to_the_reader(
    stream: StreamView,
    head: ResponseHeadView,
    sink: SinkView,
)
    requires
        stream.pending_head == Some(head),
        stream.response == Some(sink),
    ensures
        ({
            let complete = stream.frame.state is Complete;
            let (shown, outcome) = head_decided(stream, true);
            let (hidden, silent) = head_decided(stream, false);
            let there = sink.end is None && !sink.reader_closed;
            &&& there ==> shown.response == Some(
                SinkView {
                    head: Some(head),
                    end: if complete {
                        Some(SinkEndView::Complete)
                    } else {
                        None
                    },
                    ..sink
                },
            ) && (outcome matches Ok(decision) && decision.complete == complete
                && decision.permits_reuse == stream.frame.permits_reuse)
            &&& !there ==> outcome is Err && shown.response == Some(sink)
            &&& shown.output is Deliver
            &&& shown.pending_head is None
            &&& hidden.response == Some(sink)
            &&& hidden.output is Discard
            &&& hidden.pending_head is None
            &&& silent matches Ok(decision) && decision.complete == complete
            &&& shown.frame == stream.frame
            &&& hidden.frame == stream.frame
        }),
{
    reveal(head_decided);
}

/// A final head ends the upload, and decides whether the response is followed elsewhere: by the same
/// rule as for a response held in memory, and never where the body of the request was streamed.
pub proof fn lemma_heads_decide_on_redirects(
    exchange: ExchangeView,
    stream: StreamTransferView,
    head: ResponseHeadView,
    consumed: nat,
)
    ensures
        ({
            let offered = head_offered(exchange, stream, head, consumed);
            let next = if exchange.upload is Some {
                Ok(None)
            } else {
                redirected(
                    exchange.request,
                    head.status,
                    exchange.redirect_hops,
                    redirect_target(exchange.request.url, head.headers),
                )
            };
            &&& next matches Err(error) ==> offered.end == Some(DrainView::Failed(error))
            &&& next matches Ok(redirect) ==> {
                &&& offered.stream.redirect == redirect
                &&& offered.exchange.upload is None
                &&& offered.exchange == upload_ended(exchange)
                &&& offered.stream.plaintext == stream.plaintext.skip(consumed as int)
            }
        }),
{
    reveal(head_offered);
}

/// Where no body follows a head, the response is complete: its connection is free again only if nothing
/// more arrived, and behind a redirect nothing more may have arrived at all.
pub proof fn lemma_heads_without_a_body_complete_the_response(
    stream: StreamTransferView,
    head: ResponseHeadView,
    sink: SinkView,
    redirect: Option<RequestView>,
)
    requires
        stream.decoder.pending_head == Some(head),
        stream.decoder.response == Some(sink),
        sink.end is None,
        !sink.reader_closed,
    ensures
        ({
            let end = head_taken(stream, redirect).1;
            let more = stream.plaintext.len() > 0;
            &&& !(stream.decoder.frame.state is Complete) ==> end is None
            &&& stream.decoder.frame.state is Complete && more && redirect is Some ==> end == Some(
                DrainView::Failed(
                    transport_error(
                        TransportStage::Http,
                        "the peer sent bytes after a no-body redirect response"@,
                    ),
                ),
            )
            &&& stream.decoder.frame.state is Complete && !(more && redirect is Some) ==> end == Some(
                DrainView::Complete {
                    permits_reuse: stream.decoder.frame.permits_reuse && !more,
                    peer_closed: stream.peer_closed,
                },
            )
        }),
{
    reveal(head_decided);
}

/// Nothing may follow a complete response.
pub proof fn lemma_nothing_follows_a_delivered_response(
    stream: StreamTransferView,
    permits_reuse: bool,
)
    ensures
        stream.plaintext.len() > 0 ==> body_ended(stream, permits_reuse) == DrainView::Failed(
            transport_error(
                TransportStage::Http,
                "the peer sent bytes after the completed streaming HTTP response"@,
            ),
        ),
        stream.plaintext.len() == 0 ==> body_ended(stream, permits_reuse) == (DrainView::Complete {
            permits_reuse,
            peer_closed: stream.peer_closed,
        }),
{
    reveal(body_ended);
}

/// What was taken of the bytes that arrived decides what comes next: a head is offered, a full queue or
/// a lack of bytes makes the rest wait, and a complete response ends.
pub proof fn lemma_progress_decides_what_comes_next(
    exchange: ExchangeView,
    stream: StreamTransferView,
    head: ResponseHeadView,
    consumed: nat,
    permits_reuse: bool,
    delivered: bool,
)
    ensures
        progress_taken(exchange, stream, StreamProgressView::Head { head, consumed })
            == head_offered(exchange, stream, head, consumed),
        consumed > 0 ==> ({
            let next = progress_taken(
                exchange,
                stream,
                StreamProgressView::Body { consumed, blocked: false },
            );
            next.end is None && next.stream.plaintext == stream.plaintext.skip(consumed as int)
                && next.exchange == exchange
        }),
        progress_taken(
            exchange,
            stream,
            StreamProgressView::Body { consumed, blocked: true },
        ).end == Some(stream_ended(behind(stream, consumed)).1),
        progress_taken(
            exchange,
            stream,
            StreamProgressView::Complete { consumed, permits_reuse, delivered },
        ).end == Some(body_ended(behind(stream, consumed), permits_reuse)),
{
    reveal(progress_taken);
}

/// The end of the stream counts once every byte before it was taken. A body without another end is then
/// complete and its reader learns so; anything else was cut short. A TLS stream that ends without
/// notice never completes a response.
pub proof fn lemma_closing_completes_only_open_streams(stream: StreamTransferView, sink: SinkView)
    requires
        stream.decoder.response == Some(sink),
        stream.decoder.pending_head is None,
        stream.decoder.output is Deliver,
    ensures
        ({
            let (next, end) = stream_ended(stream);
            let counts = stream.peer_closed && stream.plaintext.len() == 0;
            &&& !counts ==> end is Waiting && next == stream
            &&& counts && stream.tls_dirty_eof ==> end == DrainView::Failed(
                transport_error(
                    TransportStage::Receive,
                    "the TLS peer closed without an authenticated close notification"@,
                ),
            )
            &&& counts && !stream.tls_dirty_eof && stream.decoder.frame.state is CloseDelimited ==> {
                &&& end == (DrainView::Complete {
                    permits_reuse: stream.decoder.frame.permits_reuse,
                    peer_closed: true,
                })
                &&& next.decoder.response == Some(
                    if sink.end is None {
                        SinkView { end: Some(SinkEndView::Complete), ..sink }
                    } else {
                        sink
                    },
                )
            }
            &&& counts && !stream.tls_dirty_eof && !(stream.decoder.frame.state is CloseDelimited)
                ==> end is Failed
        }),
{
    reveal(stream_ended);
    reveal(stream_eof);
}

/// Bytes are not taken before a head was decided on, nor after the response is complete.
pub proof fn lemma_bytes_are_taken_in_their_time(stream: StreamView, bytes: Seq<u8>)
    ensures
        stream.frame.state is Complete || stream.pending_head is Some ==> stream_ingest(
            stream,
            bytes,
        ).1 is Err && stream_ingest(stream, bytes).0 == stream,
        stream.pending_head is Some ==> stream_eof(stream).1 is Err,
        stream.pending_head is None && stream.frame.state is Complete ==> stream_eof(stream)
            == (stream, Ok::<Option<(bool, bool)>, ErrorView>(None)),
{
    reveal(stream_ingest);
    reveal(stream_eof);
}

/// A reader that has gone away stops the delivery with an error that says so.
pub proof fn lemma_delivery_stops_without_a_reader(stream: StreamView, sink: SinkView, body: Seq<u8>)
    requires
        stream.response == Some(sink),
        body.len() > 0,
    ensures
        sink.end is Some || sink.reader_closed ==> flushed(stream, body) == Err::<
            StreamView,
            ErrorView,
        >(
            transport_error(
                TransportStage::Receive,
                "the streaming response reader closed during delivery"@,
            ),
        ),
        sink.end is None && !sink.reader_closed && sink.head is Some && sink.accepted + body.len()
            <= sink.body_limit && sink.queue.len() + body.len() <= sink.capacity ==> flushed(
            stream,
            body,
        ) == Ok::<StreamView, ErrorView>(
            StreamView {
                response: Some(
                    SinkView {
                        queue: sink.queue + body,
                        accepted: sink.accepted + body.len(),
                        ..sink
                    },
                ),
                ..stream
            },
        ),
{
}

/// A session that failed ends its exchange with its error, and nothing is sent.
pub proof fn lemma_failed_sessions_end_exchanges(
    transfer: TransferView,
    event: EventView,
    armed: bool,
    now: u64,
    error: ErrorView,
)
    requires
        event.kind == EventKindView::SessionFailed(error),
    ensures
        event_taken(transfer, event, armed, now).outcome == OutcomeView::Failed(error),
        event_taken(transfer, event, armed, now).transfer == transfer,
        event_taken(transfer, event, armed, now).outbound == Seq::<u8>::empty(),
{
}

/// In the clear nothing may arrive while earlier bytes still wait for the reader.
pub proof fn lemma_cleartext_waits_for_the_reader(
    transfer: TransferView,
    stream: StreamTransferView,
    event: EventView,
    armed: bool,
    now: u64,
)
    requires
        event.kind is Data,
        transfer.exchange.tls is None,
        transfer.response == TransferResponseView::Streaming(stream),
        stream.plaintext.len() > 0,
    ensures
        event_taken(transfer, event, armed, now).outcome == OutcomeView::Failed(
            plain_error(
                ErrorKind::Internal,
                "native cleartext accepted bytes while streaming plaintext remained"@,
            ),
        ),
{
}

/// A close without notice through TLS never completes a response, and one in the clear completes exactly
/// a body that has no other end, once everything before it was delivered.
pub proof fn lemma_unnoticed_closes_complete_nothing(
    transfer: TransferView,
    stream: StreamTransferView,
    sink: SinkView,
)
    requires
        transfer.response == TransferResponseView::Streaming(stream),
        stream.plaintext.len() == 0,
        stream.decoder.pending_head is None,
        stream.decoder.output is Deliver,
        stream.decoder.response == Some(sink),
    ensures
        transfer.exchange.tls is Some ==> close_handled(transfer).1 is Failed,
        transfer.exchange.tls is None && !stream.tls_dirty_eof
            && stream.decoder.frame.state is CloseDelimited ==> close_handled(transfer).1 == (
        OutcomeView::StreamComplete {
            permits_reuse: stream.decoder.frame.permits_reuse,
            peer_closed: true,
        }),
        transfer.exchange.tls is None && !(stream.decoder.frame.state is CloseDelimited)
            ==> close_handled(transfer).1 is Failed,
{
    reveal(stream_received);
    let nothing = Seq::<u8>::empty();
    assert(stream.plaintext + nothing =~= stream.plaintext);
    let dirty = StreamTransferView { peer_closed: true, tls_dirty_eof: true, ..stream };
    let clean = StreamTransferView { peer_closed: true, ..stream };
    lemma_closing_completes_only_open_streams(dirty, sink);
    lemma_closing_completes_only_open_streams(clean, sink);
}

proof fn lemma_drained_is_answered(exchange: ExchangeView, stream: StreamTransferView)
    ensures
        exchange.response_started || stream.plaintext.len() > 0 ==> stream_drained(
            exchange,
            stream,
        ).0.response_started,
    decreases stream.plaintext.len(),
{
    reveal(progress_taken);
    reveal(head_offered);
    let step = drain_step(exchange, stream);
    if step.end is None && step.stream.plaintext.len() < stream.plaintext.len() {
        lemma_drained_is_answered(step.exchange, step.stream);
    }
}

/// An exchange on which bytes have arrived counts as answered, also where they are delivered piece by
/// piece.
pub proof fn lemma_delivered_bytes_are_an_answer(
    exchange: ExchangeView,
    stream: StreamTransferView,
    plaintext: Seq<u8>,
    peer_closed: bool,
)
    requires
        plaintext.len() > 0,
    ensures
        stream_received(exchange, stream, plaintext, peer_closed).0.exchange.response_started,
{
    reveal(stream_received);
    lemma_drained_is_answered(
        exchange,
        StreamTransferView {
            plaintext: stream.plaintext + plaintext,
            peer_closed: stream.peer_closed || peer_closed,
            ..stream
        },
    );
}

/// A reader's queue has no room left.
pub open spec fn has_no_room(stream: StreamView) -> bool {
    stream.output is Deliver && (stream.response matches Some(sink) ==> sink.queue.len()
        >= sink.capacity)
}

proof fn lemma_ingest_goes_on(stream: StreamView, bytes: Seq<u8>)
    requires
        bytes.len() > 0,
    ensures
        match stream_ingest(stream, bytes).1 {
            Ok(StreamProgressView::Body { consumed, blocked }) => {
                &&& consumed <= bytes.len()
                &&& blocked ==> has_no_room(stream_ingest(stream, bytes).0)
                &&& !blocked ==> consumed == bytes.len()
            },
            Ok(StreamProgressView::Head { consumed, .. }) => 0 < consumed <= bytes.len(),
            _ => true,
        },
{
    reveal(stream_ingest);
    let room = stream_room(stream);
    lemma_stream_run_bounds(stream, bytes, room, Seq::empty());
}

/// Delivery does not stall: what waits has either all been taken, or the reader's queue is full.
pub proof fn lemma_delivery_does_not_stall(exchange: ExchangeView, stream: StreamTransferView)
    ensures
        ({
            let (_, left, end) = stream_drained(exchange, stream);
            end is Waiting ==> left.plaintext.len() == 0 || has_no_room(left.decoder)
        }),
    decreases stream.plaintext.len(),
{
    reveal(progress_taken);
    reveal(head_offered);
    reveal(stream_ended);
    reveal(body_ended);
    if stream.plaintext.len() > 0 {
        lemma_ingest_goes_on(stream.decoder, stream.plaintext);
        let step = drain_step(exchange, stream);
        if step.end is None && step.stream.plaintext.len() < stream.plaintext.len() {
            lemma_delivery_does_not_stall(step.exchange, step.stream);
        }
    }
}

/// A look at a connection notes that the request was written, once nothing of it is left.
pub proof fn lemma_looks_note_written_requests(
    transfer: TransferView,
    stream: StreamTransferView,
    report: SocketReport,
    now: u64,
)
    requires
        transfer.response == TransferResponseView::Streaming(stream),
        stream.plaintext.len() == 0,
        transfer.exchange.upload is None,
        transfer.exchange.tls is None,
    ensures
        resumed(transfer, report, now).transfer.exchange.request_write_drained == (
        transfer.exchange.request_write_drained || (transfer.exchange.connected
            && !transfer.exchange.upload_aborted && report.outbound_empty)),
        resumed(transfer, report, now).outbound == Seq::<u8>::empty(),
{
    reveal(stream_received);
    assert(stream.plaintext + Seq::<u8>::empty() =~= stream.plaintext);
}

} // verus!
