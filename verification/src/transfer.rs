//! One exchange on one connection: a request on its way out and a response on its way in.

use crate::deadline::{has_passed, is_past};
use crate::decoder::{decoder_ok, eof_outcome, run, DecoderView, ResponseDecoder, RunEnd};
use crate::exchange::{
    arrival_noted, exchange_deadline, exchange_ok, exchange_timeout, progressed, reader_followed,
    stream_redirect, upload_ended, Exchange, ExchangeView,
};
use crate::failure::{
    expired, expired_error, native_transport_error, transport_failure, NativeFailure,
    NativeFailureKind, NativeFailureView,
};
use crate::pool::TlsPhase;
use crate::redirect::request_view;
use crate::stream::sink_ok;
use crate::stream_decoder::{
    head_decided, socket_room, stream_eof, stream_ingest, stream_ok, StreamDecodeProgress,
    StreamProgressView, StreamView, StreamingResponseDecoder,
};
use crate::types::{
    plain_error, tls_error, transport_error, Error, ErrorKind, ErrorView, Request, RequestView,
    Response, ResponseHead, ResponseHeadView, ResponseView, TimeoutKind, TlsFailure, TransportStage,
};
use vstd::prelude::*;
use vstd::string::*;

verus! {

/// A response that is delivered while it arrives: its decoder, the bytes that the decoder could not
/// take yet, and what is known of the connection and of a redirect.
pub struct StreamTransfer {
    pub decoder: StreamingResponseDecoder,
    pub retained_cleartext: Vec<u8>,
    pub peer_closed: bool,
    pub tls_dirty_eof: bool,
    pub redirect: Option<Request>,
}

/// What a [`StreamTransfer`] holds.
pub struct StreamTransferView {
    pub decoder: StreamView,
    pub plaintext: Seq<u8>,
    pub peer_closed: bool,
    pub tls_dirty_eof: bool,
    pub redirect: Option<RequestView>,
}

impl View for StreamTransfer {
    type V = StreamTransferView;

    open spec fn view(&self) -> StreamTransferView {
        StreamTransferView {
            decoder: self.decoder@,
            plaintext: self.retained_cleartext@,
            peer_closed: self.peer_closed,
            tls_dirty_eof: self.tls_dirty_eof,
            redirect: request_view(self.redirect),
        }
    }
}

/// What draining a stream came to.
#[derive(Debug)]
pub enum DrainOutcome {
    /// The response goes on.
    Waiting,
    /// The exchange failed.
    Failed(Error),
    /// The response is complete.
    Complete { permits_reuse: bool, peer_closed: bool },
}

/// What a [`DrainOutcome`] says.
pub enum DrainView {
    Waiting,
    Failed(ErrorView),
    Complete { permits_reuse: bool, peer_closed: bool },
}

impl View for DrainOutcome {
    type V = DrainView;

    open spec fn view(&self) -> DrainView {
        match self {
            DrainOutcome::Waiting => DrainView::Waiting,
            DrainOutcome::Failed(error) => DrainView::Failed(error@),
            DrainOutcome::Complete { permits_reuse, peer_closed } => DrainView::Complete {
                permits_reuse: *permits_reuse,
                peer_closed: *peer_closed,
            },
        }
    }
}

/// What an optional outcome says.
pub open spec fn drain_view(outcome: Option<DrainOutcome>) -> Option<DrainView> {
    match outcome {
        Some(outcome) => Some(outcome@),
        None => None,
    }
}

/// A streaming transfer on its way: the exchange, the response, and the end where it is there.
pub struct Drained {
    pub exchange: ExchangeView,
    pub stream: StreamTransferView,
    pub end: Option<DrainView>,
}

/// What the end of the stream leads to, once it is there and every byte before it was taken.
#[verifier::opaque]
pub open spec fn stream_ended(stream: StreamTransferView) -> (StreamTransferView, DrainView) {
    if !stream.peer_closed || stream.plaintext.len() > 0 {
        (stream, DrainView::Waiting)
    } else if stream.tls_dirty_eof {
        (
            stream,
            DrainView::Failed(
                transport_error(
                    TransportStage::Receive,
                    "the TLS peer closed without an authenticated close notification"@,
                ),
            ),
        )
    } else {
        let (decoder, outcome) = stream_eof(stream.decoder);
        let next = StreamTransferView { decoder, ..stream };
        match outcome {
            Ok(Some((permits_reuse, _))) => (
                next,
                DrainView::Complete { permits_reuse, peer_closed: true },
            ),
            Ok(None) => (
                next,
                DrainView::Failed(
                    transport_error(
                        TransportStage::Receive,
                        "the peer closed without completing a streaming response"@,
                    ),
                ),
            ),
            Err(error) => (next, DrainView::Failed(error)),
        }
    }
}

/// The transfer without the first bytes of what has arrived.
pub open spec fn behind(stream: StreamTransferView, consumed: nat) -> StreamTransferView {
    StreamTransferView { plaintext: stream.plaintext.skip(consumed as int), ..stream }
}

/// What deciding the final head leads to, once it was taken out of what has arrived.
pub open spec fn head_taken(stream: StreamTransferView, redirect: Option<RequestView>) -> (
    StreamTransferView,
    Option<DrainView>,
) {
    let (decoder, outcome) = head_decided(stream.decoder, redirect is None);
    let next = StreamTransferView { decoder, redirect, ..stream };
    match outcome {
        Err(error) => (next, Some(DrainView::Failed(error))),
        Ok(decision) => if !decision.complete {
            (next, None)
        } else if stream.plaintext.len() > 0 && redirect is Some {
            (
                next,
                Some(
                    DrainView::Failed(
                        transport_error(
                            TransportStage::Http,
                            "the peer sent bytes after a no-body redirect response"@,
                        ),
                    ),
                ),
            )
        } else {
            (
                next,
                Some(
                    DrainView::Complete {
                        permits_reuse: decision.permits_reuse && stream.plaintext.len() == 0,
                        peer_closed: stream.peer_closed,
                    },
                ),
            )
        },
    }
}

/// What the final head leads to: a redirect is decided, then the upload is given up and the head
/// decided.
#[verifier::opaque]
pub open spec fn head_offered(
    exchange: ExchangeView,
    stream: StreamTransferView,
    head: ResponseHeadView,
    consumed: nat,
) -> Drained {
    match stream_redirect(exchange, head) {
        Err(error) => Drained { exchange, stream, end: Some(DrainView::Failed(error)) },
        Ok(redirect) => {
            let (next, end) = head_taken(behind(stream, consumed), redirect);
            Drained { exchange: upload_ended(exchange), stream: next, end }
        },
    }
}

/// What a complete response leads to: nothing may follow it.
#[verifier::opaque]
pub open spec fn body_ended(stream: StreamTransferView, permits_reuse: bool) -> DrainView {
    if stream.plaintext.len() > 0 {
        DrainView::Failed(
            transport_error(
                TransportStage::Http,
                "the peer sent bytes after the completed streaming HTTP response"@,
            ),
        )
    } else {
        DrainView::Complete { permits_reuse, peer_closed: stream.peer_closed }
    }
}

/// What the decoder's progress leads to. Without an end there is more to do.
#[verifier::opaque]
pub open spec fn progress_taken(
    exchange: ExchangeView,
    stream: StreamTransferView,
    progress: StreamProgressView,
) -> Drained {
    match progress {
        StreamProgressView::Head { head, consumed } => head_offered(
            exchange,
            stream,
            head,
            consumed,
        ),
        StreamProgressView::Body { consumed, blocked } => if blocked || consumed == 0 {
            let (next, end) = stream_ended(behind(stream, consumed));
            Drained { exchange, stream: next, end: Some(end) }
        } else {
            Drained { exchange, stream: behind(stream, consumed), end: None }
        },
        StreamProgressView::Complete { consumed, permits_reuse, .. } => Drained {
            exchange,
            stream: behind(stream, consumed),
            end: Some(body_ended(behind(stream, consumed), permits_reuse)),
        },
    }
}

/// What offering the decoder everything that has arrived leads to. Without an end there is more to
/// do.
pub open spec fn drain_step(exchange: ExchangeView, stream: StreamTransferView) -> Drained {
    if stream.plaintext.len() == 0 {
        let (next, end) = stream_ended(stream);
        Drained { exchange, stream: next, end: Some(end) }
    } else {
        let (decoder, progress) = stream_ingest(stream.decoder, stream.plaintext);
        let started = ExchangeView { response_started: true, ..exchange };
        let stepped = StreamTransferView { decoder, ..stream };
        match progress {
            Err(error) => Drained {
                exchange: started,
                stream: stepped,
                end: Some(DrainView::Failed(error)),
            },
            Ok(progress) => progress_taken(started, stepped, progress),
        }
    }
}

/// What the bytes that have arrived lead to, until the decoder needs more of them, has to wait for
/// the reader, or the response ends.
pub open spec fn stream_drained(exchange: ExchangeView, stream: StreamTransferView) -> (
    ExchangeView,
    StreamTransferView,
    DrainView,
)
    decreases stream.plaintext.len(),
{
    let step = drain_step(exchange, stream);
    match step.end {
        Some(end) => (step.exchange, step.stream, end),
        None => if step.stream.plaintext.len() < stream.plaintext.len() {
            stream_drained(step.exchange, step.stream)
        } else {
            (step.exchange, step.stream, DrainView::Waiting)
        },
    }
}

/// A state that a streaming response without a violation can be in.
pub open spec fn stream_transfer_ok(stream: StreamTransferView) -> bool {
    &&& stream_ok(stream.decoder)
    &&& stream.decoder.response is Some
    &&& !(stream.decoder.frame.state is Complete)
    &&& stream.decoder.pending_head is None
}

/// The sink that a response is delivered to is there, and in order.
pub open spec fn stream_sink_ok(stream: StreamTransferView) -> bool {
    stream.decoder.response matches Some(sink) && sink_ok(sink)
}

/// A sink that is there stays there while a response is decoded.
pub proof fn lemma_sink_stays(stream: StreamView, bytes: Seq<u8>)
    requires
        stream.response is Some,
    ensures
        stream_ingest(stream, bytes).0.response is Some,
{
    reveal(stream_ingest);
    lemma_run_keeps_sink(stream, bytes, crate::stream_decoder::stream_room(stream), Seq::empty());
}

proof fn lemma_run_keeps_sink(stream: StreamView, bytes: Seq<u8>, room: nat, body: Seq<u8>)
    ensures
        crate::stream_decoder::stream_run(stream, bytes, room, body).next.response
            == stream.response,
    decreases bytes.len(),
{
    if bytes.len() > 0 {
        let (next, event) = crate::stream_decoder::stream_step(stream, bytes[0]);
        let collected = if event is Body && stream.output is Deliver {
            body.push(bytes[0])
        } else {
            body
        };
        lemma_run_keeps_sink(next, bytes.skip(1), room, collected);
    }
}

/// What an ingest of everything that has arrived tells about how far it got.
proof fn lemma_ingest_progress(stream: StreamView, bytes: Seq<u8>)
    requires
        stream_ok(stream),
        !(stream.frame.state is Complete),
        stream.pending_head is None,
    ensures
        stream_ingest(stream, bytes).1 matches Ok(StreamProgressView::Head { head, consumed })
            ==> 0 < consumed <= bytes.len() && stream_ingest(stream, bytes).0.pending_head == Some(
            head,
        ),
        stream_ingest(stream, bytes).1 matches Ok(StreamProgressView::Body { consumed, blocked })
            ==> {
            &&& consumed <= bytes.len()
            &&& !blocked ==> consumed == bytes.len()
            &&& stream_ingest(stream, bytes).0.pending_head is None
            &&& !(stream_ingest(stream, bytes).0.frame.state is Complete)
        },
        stream_ingest(stream, bytes).1 matches Ok(StreamProgressView::Complete { consumed, .. })
            ==> 0 < consumed <= bytes.len(),
{
    reveal(stream_ingest);
    let room = crate::stream_decoder::stream_room(stream);
    crate::stream_laws::lemma_stream_run_bounds(stream, bytes, room, Seq::empty());
    crate::stream_fuzz::lemma_stream_run_keeps_ok(stream, bytes, room, Seq::empty());
    crate::stream_fuzz::lemma_offered_head_is_pending(stream, bytes, room, Seq::empty());
}

impl StreamTransfer {
    pub open spec fn wf(&self) -> bool {
        stream_transfer_ok(self@)
    }

    /// The bytes that have arrived and that the decoder could not take yet.
    pub fn stream_plaintext(&self) -> (result: &[u8])
        ensures
            result@ == self@.plaintext,
    {
        self.retained_cleartext.as_slice()
    }

    /// Drops bytes that the decoder took.
    pub fn consume_stream_plaintext(&mut self, consumed: usize) -> (result: Result<(), Error>)
        ensures
            match result {
                Ok(_) => consumed <= old(self)@.plaintext.len() && final(self)@ == behind(
                    old(self)@,
                    consumed as nat,
                ),
                Err(error) => consumed > old(self)@.plaintext.len() && final(self)@ == old(self)@
                    && error@ == plain_error(
                    ErrorKind::Internal,
                    "native HTTP consumed beyond retained cleartext streaming bytes"@,
                ),
            },
    {
        if consumed > self.retained_cleartext.len() {
            return Err(
                Error::new(
                    ErrorKind::Internal,
                    "native HTTP consumed beyond retained cleartext streaming bytes",
                ),
            );
        }
        let rest = self.retained_cleartext.split_off(consumed);
        self.retained_cleartext = rest;
        assert(self@.plaintext =~= old(self)@.plaintext.skip(consumed as int));
        Ok(())
    }

    fn skip_plaintext(&mut self, consumed: usize)
        requires
            consumed <= old(self)@.plaintext.len(),
        ensures
            final(self)@ == behind(old(self)@, consumed as nat),
    {
        let skipped = self.consume_stream_plaintext(consumed);
        assert(skipped is Ok);
    }

    /// Offers the decoder everything that has arrived.
    fn ingest_retained(&mut self) -> (result: Result<StreamDecodeProgress, Error>)
        requires
            old(self).wf(),
        ensures
            final(self)@ == (StreamTransferView { decoder: final(self)@.decoder, ..old(self)@ }),
            match result {
                Ok(progress) => stream_ingest(old(self)@.decoder, old(self)@.plaintext) == (
                    final(self)@.decoder,
                    Ok::<StreamProgressView, ErrorView>(progress@),
                ),
                Err(error) => stream_ingest(old(self)@.decoder, old(self)@.plaintext) == (
                    final(self)@.decoder,
                    Err::<StreamProgressView, ErrorView>(error@),
                ),
            },
            result is Ok ==> stream_ok(final(self)@.decoder),
            stream_sink_ok(final(self)@),
    {
        proof {
            lemma_sink_stays(self@.decoder, self@.plaintext);
        }
        self.decoder.ingest(self.retained_cleartext.as_slice())
    }

    /// Decides the final head.
    fn take_head(&mut self, redirect: Option<Request>) -> (result: Option<DrainOutcome>)
        requires
            stream_ok(old(self)@.decoder),
            stream_sink_ok(old(self)@),
            old(self)@.decoder.pending_head is Some,
        ensures
            head_taken(old(self)@, request_view(redirect)) == (final(self)@, drain_view(result)),
            result is None ==> final(self).wf(),
            result is None ==> final(self)@.plaintext == old(self)@.plaintext,
            !(result matches Some(DrainOutcome::Waiting)),
            stream_sink_ok(final(self)@),
    {
        let deliver = redirect.is_none();
        self.redirect = redirect;
        proof {
            reveal(head_decided);
        }
        match self.decoder.decide_head(deliver) {
            Err(error) => Some(DrainOutcome::Failed(error)),
            Ok(decision) => {
                if !decision.complete {
                    return None;
                }
                let trailing = self.stream_plaintext().len() > 0;
                if trailing && !deliver {
                    return Some(
                        DrainOutcome::Failed(
                            Error::transport(
                                TransportStage::Http,
                                "the peer sent bytes after a no-body redirect response",
                            ),
                        ),
                    );
                }
                Some(
                    DrainOutcome::Complete {
                        permits_reuse: decision.permits_reuse && !trailing,
                        peer_closed: self.peer_closed,
                    },
                )
            },
        }
    }

    /// Takes the end of the stream, once it is there and every byte before it was taken.
    fn end_stream(&mut self) -> (result: DrainOutcome)
        requires
            old(self).wf(),
        ensures
            stream_ended(old(self)@) == (final(self)@, result@),
            result is Waiting ==> final(self).wf(),
            stream_sink_ok(final(self)@),
    {
        reveal(stream_ended);
        if !self.peer_closed || self.stream_plaintext().len() > 0 {
            return DrainOutcome::Waiting;
        }
        if self.tls_dirty_eof {
            return DrainOutcome::Failed(
                Error::transport(
                    TransportStage::Receive,
                    "the TLS peer closed without an authenticated close notification",
                ),
            );
        }
        proof {
            reveal(stream_eof);
        }
        match self.decoder.eof() {
            Ok(Some((permits_reuse, _))) => DrainOutcome::Complete {
                permits_reuse,
                peer_closed: true,
            },
            Ok(None) => DrainOutcome::Failed(
                Error::transport(
                    TransportStage::Receive,
                    "the peer closed without completing a streaming response",
                ),
            ),
            Err(error) => DrainOutcome::Failed(error),
        }
    }

    /// Ends a complete response.
    fn end_body(&self, permits_reuse: bool) -> (result: DrainOutcome)
        ensures
            result@ == body_ended(self@, permits_reuse),
            !(result is Waiting),
    {
        reveal(body_ended);
        if self.stream_plaintext().len() > 0 {
            DrainOutcome::Failed(
                Error::transport(
                    TransportStage::Http,
                    "the peer sent bytes after the completed streaming HTTP response",
                ),
            )
        } else {
            DrainOutcome::Complete { permits_reuse, peer_closed: self.peer_closed }
        }
    }

    /// Decides a redirect, then the final head.
    fn offer_head(&mut self, exchange: &mut Exchange, head: ResponseHead, consumed: usize) -> (result:
        Option<DrainOutcome>)
        requires
            stream_ok(old(self)@.decoder),
            stream_sink_ok(old(self)@),
            old(self)@.decoder.pending_head is Some,
            consumed <= old(self)@.plaintext.len(),
            old(exchange).wf(),
        ensures
            final(exchange).wf(),
            head_offered(old(exchange)@, old(self)@, head@, consumed as nat) == (Drained {
                exchange: final(exchange)@,
                stream: final(self)@,
                end: drain_view(result),
            }),
            result is None ==> final(self).wf(),
            result is None ==> final(self)@.plaintext == old(self)@.plaintext.skip(consumed as int),
            !(result matches Some(DrainOutcome::Waiting)),
            stream_sink_ok(final(self)@),
    {
        reveal(head_offered);
        let redirect = match exchange.find_stream_redirect(&head) {
            Ok(redirect) => redirect,
            Err(error) => {
                return Some(DrainOutcome::Failed(error));
            },
        };
        self.skip_plaintext(consumed);
        exchange.end_upload();
        self.take_head(redirect)
    }

    /// Offers the decoder everything that has arrived.
    fn drain_once(&mut self, exchange: &mut Exchange) -> (result: Option<DrainOutcome>)
        requires
            old(self).wf(),
            old(exchange).wf(),
        ensures
            final(exchange).wf(),
            drain_step(old(exchange)@, old(self)@) == (Drained {
                exchange: final(exchange)@,
                stream: final(self)@,
                end: drain_view(result),
            }),
            result is None ==> final(self)@.plaintext.len() < old(self)@.plaintext.len(),
            (result is None || result matches Some(DrainOutcome::Waiting)) ==> final(self).wf(),
            stream_sink_ok(final(self)@),
    {
        proof {
            lemma_ingest_progress(self@.decoder, self@.plaintext);
        }
        if self.stream_plaintext().len() == 0 {
            return Some(self.end_stream());
        }
        exchange.start_response();
        match self.ingest_retained() {
            Err(error) => Some(DrainOutcome::Failed(error)),
            Ok(progress) => self.take_progress(exchange, progress),
        }
    }

    /// Acts on the decoder's progress.
    fn take_progress(&mut self, exchange: &mut Exchange, progress: StreamDecodeProgress) -> (result:
        Option<DrainOutcome>)
        requires
            old(exchange).wf(),
            stream_ok(old(self)@.decoder),
            stream_sink_ok(old(self)@),
            match progress@ {
                StreamProgressView::Head { consumed, .. } => 0 < consumed
                    <= old(self)@.plaintext.len() && old(self)@.decoder.pending_head is Some,
                StreamProgressView::Body { consumed, .. } => consumed <= old(self)@.plaintext.len()
                    && old(self)@.decoder.pending_head is None && !(
                old(self)@.decoder.frame.state is Complete),
                StreamProgressView::Complete { consumed, .. } => consumed
                    <= old(self)@.plaintext.len(),
            },
        ensures
            final(exchange).wf(),
            progress_taken(old(exchange)@, old(self)@, progress@) == (Drained {
                exchange: final(exchange)@,
                stream: final(self)@,
                end: drain_view(result),
            }),
            result is None ==> final(self)@.plaintext.len() < old(self)@.plaintext.len(),
            (result is None || result matches Some(DrainOutcome::Waiting)) ==> final(self).wf(),
            stream_sink_ok(final(self)@),
    {
        reveal(progress_taken);
        match progress {
            StreamDecodeProgress::Head { head, consumed } => self.offer_head(
                exchange,
                head,
                consumed,
            ),
            StreamDecodeProgress::Body { consumed, blocked } => {
                self.skip_plaintext(consumed);
                if blocked || consumed == 0 {
                    Some(self.end_stream())
                } else {
                    None
                }
            },
            StreamDecodeProgress::Complete { consumed, permits_reuse, .. } => {
                self.skip_plaintext(consumed);
                Some(self.end_body(permits_reuse))
            },
        }
    }

    /// Lets the decoder take what has arrived, until it needs more, has to wait for the reader, or
    /// the response ends. A redirect is decided as soon as the final head is there.
    pub fn drain_stream_plaintext(&mut self, exchange: &mut Exchange, peer_closed: bool) -> (result:
        DrainOutcome)
        requires
            old(self).wf(),
            old(exchange).wf(),
        ensures
            final(exchange).wf(),
            stream_drained(
                old(exchange)@,
                StreamTransferView {
                    peer_closed: old(self)@.peer_closed || peer_closed,
                    ..old(self)@
                },
            ) == (final(exchange)@, final(self)@, result@),
            result is Waiting ==> final(self).wf(),
            stream_sink_ok(final(self)@),
    {
        if peer_closed {
            self.peer_closed = true;
        }
        let ghost start = self@;
        loop
            invariant
                self.wf(),
                exchange.wf(),
                start == (StreamTransferView {
                    peer_closed: old(self)@.peer_closed || peer_closed,
                    ..old(self)@
                }),
                stream_drained(old(exchange)@, start) == stream_drained(exchange@, self@),
            decreases self@.plaintext.len(),
        {
            if let Some(outcome) = self.drain_once(exchange) {
                return outcome;
            }
        }
    }
}

/// How a response is received.
pub enum TransferResponse {
    Buffered(ResponseDecoder),
    Streaming(StreamTransfer),
}

/// What a [`TransferResponse`] holds.
pub enum TransferResponseView {
    Buffered(DecoderView),
    Streaming(StreamTransferView),
}

impl View for TransferResponse {
    type V = TransferResponseView;

    open spec fn view(&self) -> TransferResponseView {
        match self {
            TransferResponse::Buffered(decoder) => TransferResponseView::Buffered(decoder@),
            TransferResponse::Streaming(stream) => TransferResponseView::Streaming(stream@),
        }
    }
}

impl TransferResponse {
    pub open spec fn wf(&self) -> bool {
        match self {
            TransferResponse::Buffered(decoder) => decoder_ok(decoder@)
                && !(decoder@.frame.state is Complete),
            TransferResponse::Streaming(stream) => stream.wf(),
        }
    }

    pub fn is_streaming(&self) -> (result: bool)
        ensures
            result == (self@ is Streaming),
    {
        match self {
            TransferResponse::Buffered(_) => false,
            TransferResponse::Streaming(_) => true,
        }
    }
}

/// One exchange on one connection.
pub struct HttpTransfer {
    pub exchange: Exchange,
    pub response: TransferResponse,
}

/// What an [`HttpTransfer`] holds.
pub struct TransferView {
    pub exchange: ExchangeView,
    pub response: TransferResponseView,
}

impl View for HttpTransfer {
    type V = TransferView;

    open spec fn view(&self) -> TransferView {
        TransferView { exchange: self.exchange@, response: self.response@ }
    }
}

/// What an event came to for an exchange.
#[derive(Debug)]
pub enum TransferOutcome {
    /// The exchange goes on.
    Running,
    /// The exchange failed.
    Failed(Error),
    /// The response is complete and so is the connection.
    Finished(Response),
    /// The response is complete; the connection may carry another exchange.
    Completed { response: Response, permits_reuse: bool, peer_closed: bool },
    /// A response that was delivered or discarded is complete.
    StreamComplete { permits_reuse: bool, peer_closed: bool },
}

/// What a [`TransferOutcome`] says.
pub enum OutcomeView {
    Running,
    Failed(ErrorView),
    Finished(ResponseView),
    Completed { response: ResponseView, permits_reuse: bool, peer_closed: bool },
    StreamComplete { permits_reuse: bool, peer_closed: bool },
}

impl View for TransferOutcome {
    type V = OutcomeView;

    open spec fn view(&self) -> OutcomeView {
        match self {
            TransferOutcome::Running => OutcomeView::Running,
            TransferOutcome::Failed(error) => OutcomeView::Failed(error@),
            TransferOutcome::Finished(response) => OutcomeView::Finished(response@),
            TransferOutcome::Completed { response, permits_reuse, peer_closed } =>
                OutcomeView::Completed {
                response: response@,
                permits_reuse: *permits_reuse,
                peer_closed: *peer_closed,
            },
            TransferOutcome::StreamComplete { permits_reuse, peer_closed } =>
                OutcomeView::StreamComplete {
                permits_reuse: *permits_reuse,
                peer_closed: *peer_closed,
            },
        }
    }
}

/// What draining a stream comes to for the exchange.
pub open spec fn drain_outcome(end: DrainView) -> OutcomeView {
    match end {
        DrainView::Waiting => OutcomeView::Running,
        DrainView::Failed(error) => OutcomeView::Failed(error),
        DrainView::Complete { permits_reuse, peer_closed } => OutcomeView::StreamComplete {
            permits_reuse,
            peer_closed,
        },
    }
}

fn outcome_of_drain(end: DrainOutcome) -> (result: TransferOutcome)
    ensures
        result@ == drain_outcome(end@),
{
    match end {
        DrainOutcome::Waiting => TransferOutcome::Running,
        DrainOutcome::Failed(error) => TransferOutcome::Failed(error),
        DrainOutcome::Complete { permits_reuse, peer_closed } => TransferOutcome::StreamComplete {
            permits_reuse,
            peer_closed,
        },
    }
}

/// What bytes of a response that is held in memory come to. Nothing may follow a complete response;
/// under TLS the end of the stream may come with the bytes.
#[verifier::opaque]
pub open spec fn buffered_data(decoder: DecoderView, plaintext: Seq<u8>, peer_closed: bool) -> (
    DecoderView,
    OutcomeView,
) {
    match run(decoder, plaintext) {
        (next, RunEnd::Failed(error)) => (next, OutcomeView::Failed(error)),
        (next, RunEnd::Done { response, consumed }) => (
            next,
            if consumed == plaintext.len() {
                OutcomeView::Completed {
                    response,
                    permits_reuse: next.frame.permits_reuse,
                    peer_closed,
                }
            } else {
                OutcomeView::Failed(
                    transport_error(
                        TransportStage::Http,
                        "the peer sent bytes after the completed HTTP response"@,
                    ),
                )
            },
        ),
        (next, RunEnd::More) => if peer_closed {
            buffered_eof(next, "the TLS peer closed without completing a response"@)
        } else {
            (next, OutcomeView::Running)
        },
    }
}

/// What the end of the stream comes to for a response that is held in memory.
pub open spec fn buffered_eof(decoder: DecoderView, incomplete: Seq<char>) -> (
    DecoderView,
    OutcomeView,
) {
    match eof_outcome(decoder) {
        (next, Ok(Some(response))) => (next, OutcomeView::Finished(response)),
        (next, Ok(None)) => (
            next,
            OutcomeView::Failed(transport_error(TransportStage::Receive, incomplete)),
        ),
        (next, Err(error)) => (next, OutcomeView::Failed(error)),
    }
}

fn end_buffered(decoder: &mut ResponseDecoder, incomplete: &str) -> (result: TransferOutcome)
    requires
        old(decoder).wf(),
    ensures
        buffered_eof(old(decoder)@, incomplete@) == (final(decoder)@, result@),
        !(result is Running),
{
    match decoder.eof() {
        Ok(Some(response)) => TransferOutcome::Finished(response),
        Ok(None) => TransferOutcome::Failed(
            Error::transport(TransportStage::Receive, incomplete),
        ),
        Err(error) => TransferOutcome::Failed(error),
    }
}

fn take_buffered(decoder: &mut ResponseDecoder, plaintext: &[u8], peer_closed: bool) -> (result:
    TransferOutcome)
    requires
        old(decoder).wf(),
        !(old(decoder)@.frame.state is Complete),
    ensures
        buffered_data(old(decoder)@, plaintext@, peer_closed) == (final(decoder)@, result@),
        result is Running ==> final(decoder).wf() && !(final(decoder)@.frame.state is Complete),
{
    reveal(buffered_data);
    proof {
        if run(decoder@, plaintext@).1 is More {
            crate::fuzz::lemma_stays_incomplete(decoder@, plaintext@);
        }
    }
    match decoder.ingest(plaintext) {
        Err(error) => TransferOutcome::Failed(error),
        Ok(progress) => match progress.response {
            Some(response) => {
                if progress.consumed == plaintext.len() {
                    TransferOutcome::Completed {
                        response,
                        permits_reuse: progress.permits_reuse,
                        peer_closed,
                    }
                } else {
                    TransferOutcome::Failed(
                        Error::transport(
                            TransportStage::Http,
                            "the peer sent bytes after the completed HTTP response",
                        ),
                    )
                }
            },
            None => {
                if peer_closed {
                    end_buffered(decoder, "the TLS peer closed without completing a response")
                } else {
                    TransferOutcome::Running
                }
            },
        },
    }
}

/// What arrived on a connection: bytes of the response, what the TLS session is doing where there is
/// one, and whether that session ended properly.
#[derive(Debug)]
pub struct Received {
    pub plaintext: Vec<u8>,
    pub tls: Option<TlsPhase>,
    pub peer_closed: bool,
}

/// The transfer and its outcome with the bytes that go out.
pub struct Stepped {
    pub transfer: TransferView,
    pub outcome: OutcomeView,
    pub outbound: Seq<u8>,
}

/// Bytes arrived for a response that is held in memory.
#[verifier::opaque]
pub open spec fn buffered_received(
    exchange: ExchangeView,
    decoder: DecoderView,
    plaintext: Seq<u8>,
    peer_closed: bool,
) -> (TransferView, OutcomeView) {
    let (next, outcome) = buffered_data(decoder, plaintext, peer_closed);
    (
        TransferView {
            exchange: ExchangeView {
                response_started: exchange.response_started || plaintext.len() > 0,
                ..exchange
            },
            response: TransferResponseView::Buffered(next),
        },
        outcome,
    )
}

/// Bytes arrived for a response that is delivered while it arrives.
#[verifier::opaque]
pub open spec fn stream_received(
    exchange: ExchangeView,
    stream: StreamTransferView,
    plaintext: Seq<u8>,
    peer_closed: bool,
) -> (TransferView, OutcomeView) {
    let (next, left, end) = stream_drained(
        exchange,
        StreamTransferView {
            plaintext: stream.plaintext + plaintext,
            peer_closed: stream.peer_closed || peer_closed,
            ..stream
        },
    );
    (
        TransferView { exchange: next, response: TransferResponseView::Streaming(left) },
        drain_outcome(end),
    )
}

/// Bytes arrived: the exchange made progress, which may free output, and then the response goes on.
/// Without TLS nothing may arrive while earlier bytes of a delivered response wait.
pub open spec fn data_handled(
    transfer: TransferView,
    plaintext: Seq<u8>,
    tls: Option<TlsPhase>,
    peer_closed: bool,
    now: u64,
    capacity: Option<usize>,
) -> Stepped {
    let waiting = transfer.response matches TransferResponseView::Streaming(stream)
        && stream.plaintext.len() > 0;
    if transfer.exchange.tls is None && waiting {
        Stepped {
            transfer,
            outcome: OutcomeView::Failed(
                plain_error(
                    ErrorKind::Internal,
                    "native cleartext accepted bytes while streaming plaintext remained"@,
                ),
            ),
            outbound: Seq::empty(),
        }
    } else {
        let (exchange, outbound, failure) = arrival_noted(transfer.exchange, tls, now, capacity);
        match failure {
            Some(error) => Stepped {
                transfer: TransferView { exchange, ..transfer },
                outcome: OutcomeView::Failed(error),
                outbound,
            },
            None => {
                let (next, outcome) = match transfer.response {
                    TransferResponseView::Buffered(decoder) => buffered_received(
                        exchange,
                        decoder,
                        plaintext,
                        peer_closed,
                    ),
                    TransferResponseView::Streaming(stream) => stream_received(
                        exchange,
                        stream,
                        plaintext,
                        peer_closed,
                    ),
                };
                Stepped { transfer: next, outcome, outbound }
            },
        }
    }
}

/// The peer closed the connection. During a handshake that is a failure of TLS; later it must be
/// announced within TLS. Without TLS it may end the response.
pub open spec fn close_handled(transfer: TransferView) -> (TransferView, OutcomeView) {
    match (transfer.exchange.tls, transfer.response) {
        (Some(tls), response) => if tls.handshaking {
            (
                transfer,
                OutcomeView::Failed(
                    tls_error(
                        TlsFailure::Protocol,
                        "the peer closed during the TLS handshake"@,
                    ),
                ),
            )
        } else {
            match response {
                TransferResponseView::Buffered(_) => (
                    transfer,
                    OutcomeView::Failed(
                        transport_error(
                            TransportStage::Receive,
                            "the TLS peer closed without an authenticated close notification"@,
                        ),
                    ),
                ),
                TransferResponseView::Streaming(stream) => stream_received(
                    transfer.exchange,
                    StreamTransferView { peer_closed: true, tls_dirty_eof: true, ..stream },
                    Seq::empty(),
                    false,
                ),
            }
        },
        (None, TransferResponseView::Streaming(stream)) => stream_received(
            transfer.exchange,
            stream,
            Seq::empty(),
            true,
        ),
        (None, TransferResponseView::Buffered(decoder)) => {
            let (next, outcome) = buffered_eof(
                decoder,
                "the peer closed without completing a response"@,
            );
            (
                TransferView { response: TransferResponseView::Buffered(next), ..transfer },
                outcome,
            )
        },
    }
}

/// The error that a failure of the connection becomes for an exchange.
pub open spec fn connection_failure(exchange: ExchangeView, failure: NativeFailureView) -> ErrorView {
    if exchange.tls matches Some(tls) && tls.handshaking {
        tls_error(
            TlsFailure::Io,
            "the connection failed during the TLS handshake: "@ + failure.message,
        )
    } else if failure.kind is Read && exchange.body_bearing && !exchange.response_started {
        transport_error(
            TransportStage::Send,
            "the connection failed during a body-bearing exchange before any response bytes arrived"@,
        )
    } else {
        transport_failure(failure)
    }
}

/// A deadline of the socket layer went off: it counts only where the exchange has none later.
pub open spec fn deadline_handled(exchange: ExchangeView, now: u64) -> OutcomeView {
    if is_past(exchange_deadline(exchange), now) {
        OutcomeView::Failed(expired(exchange_timeout(exchange, now)))
    } else {
        OutcomeView::Running
    }
}

/// How many bytes of a delivered response may be read from the connection, before TLS is reckoned.
pub open spec fn read_allowance(stream: StreamTransferView, tls: bool) -> nat {
    if !tls && stream.plaintext.len() > 0 {
        0
    } else {
        socket_room(stream.decoder)
    }
}

/// Delivery is refreshed: the allowance, and whether inactivity counts.
pub open spec fn allowance_refreshed(transfer: TransferView, now: u64) -> (TransferView, Option<nat>) {
    match transfer.response {
        TransferResponseView::Buffered(_) => (transfer, None),
        TransferResponseView::Streaming(stream) => (
            TransferView {
                exchange: reader_followed(
                    transfer.exchange,
                    stream.decoder.output is Deliver && socket_room(stream.decoder) == 0,
                    now,
                ),
                ..transfer
            },
            Some(read_allowance(stream, transfer.exchange.tls is Some)),
        ),
    }
}

/// A state that an exchange without a violation can be in.
pub open spec fn transfer_ok(transfer: TransferView) -> bool {
    &&& exchange_ok(transfer.exchange)
    &&& match transfer.response {
        TransferResponseView::Buffered(decoder) => decoder_ok(decoder)
            && !(decoder.frame.state is Complete),
        TransferResponseView::Streaming(stream) => stream_transfer_ok(stream),
    }
}

/// An exchange on whose connection something happened: its request is not sent anew any more.
pub open spec fn proven(transfer: TransferView) -> TransferView {
    TransferView {
        exchange: ExchangeView { fallback: None, ..transfer.exchange },
        ..transfer
    }
}

/// The sink that a response is delivered to is in order.
pub open spec fn transfer_sink_ok(transfer: TransferView) -> bool {
    transfer.response matches TransferResponseView::Streaming(stream) ==> stream_sink_ok(stream)
}

impl StreamTransfer {
    /// Adds bytes to those that wait.
    fn append_plaintext(&mut self, bytes: &[u8])
        requires
            old(self).wf(),
        ensures
            final(self).wf(),
            final(self)@ == (StreamTransferView {
                plaintext: old(self)@.plaintext + bytes@,
                ..old(self)@
            }),
    {
        self.retained_cleartext.extend_from_slice(bytes);
        assert(self@.plaintext =~= old(self)@.plaintext + bytes@);
    }

    /// Notes that the peer closed without saying so within TLS.
    fn mark_dirty_eof(&mut self)
        requires
            old(self).wf(),
        ensures
            final(self).wf(),
            final(self)@ == (StreamTransferView {
                peer_closed: true,
                tls_dirty_eof: true,
                ..old(self)@
            }),
    {
        self.peer_closed = true;
        self.tls_dirty_eof = true;
    }
}

/// Takes bytes for a response that is delivered while it arrives.
fn take_stream(
    exchange: &mut Exchange,
    stream: &mut StreamTransfer,
    plaintext: &[u8],
    peer_closed: bool,
) -> (result: TransferOutcome)
    requires
        old(exchange).wf(),
        old(stream).wf(),
    ensures
        final(exchange).wf(),
        stream_received(old(exchange)@, old(stream)@, plaintext@, peer_closed) == (
            TransferView {
                exchange: final(exchange)@,
                response: TransferResponseView::Streaming(final(stream)@),
            },
            result@,
        ),
        result is Running ==> final(stream).wf(),
        stream_sink_ok(final(stream)@),
{
    reveal(stream_received);
    stream.append_plaintext(plaintext);
    let end = stream.drain_stream_plaintext(exchange, peer_closed);
    outcome_of_drain(end)
}

/// Takes bytes for a response that is held in memory.
fn take_data(
    exchange: &mut Exchange,
    decoder: &mut ResponseDecoder,
    plaintext: &[u8],
    peer_closed: bool,
) -> (result: TransferOutcome)
    requires
        old(exchange).wf(),
        old(decoder).wf(),
        !(old(decoder)@.frame.state is Complete),
    ensures
        final(exchange).wf(),
        buffered_received(old(exchange)@, old(decoder)@, plaintext@, peer_closed) == (
            TransferView {
                exchange: final(exchange)@,
                response: TransferResponseView::Buffered(final(decoder)@),
            },
            result@,
        ),
        result is Running ==> final(decoder).wf() && !(final(decoder)@.frame.state is Complete),
{
    reveal(buffered_received);
    if plaintext.len() > 0 {
        exchange.start_response();
    }
    take_buffered(decoder, plaintext, peer_closed)
}

impl HttpTransfer {
    pub open spec fn wf(&self) -> bool {
        transfer_ok(self@)
    }

    /// The deadline that counts next.
    pub fn next_deadline(&self) -> (result: Option<u64>)
        ensures
            result == exchange_deadline(self@.exchange),
    {
        self.exchange.next_deadline()
    }

    /// Notes progress, and gives the deadline that counts next.
    pub fn note_progress(&mut self, now: u64, connected: bool) -> (result: Option<u64>)
        ensures
            final(self)@ == (TransferView {
                exchange: progressed(old(self)@.exchange, now, connected),
                ..old(self)@
            }),
            result == exchange_deadline(final(self)@.exchange),
            old(self).wf() ==> final(self).wf(),
    {
        self.exchange.note_progress(now, connected)
    }

    /// Which deadline has passed.
    pub fn expired_timeout(&self, now: u64) -> (result: TimeoutKind)
        ensures
            result == exchange_timeout(self@.exchange, now),
    {
        self.exchange.expired_timeout(now)
    }

    /// Something happened on the connection: the request is not sent anew any more.
    pub fn note_event(&mut self)
        ensures
            final(self)@ == proven(old(self)@),
            old(self).wf() ==> final(self).wf(),
    {
        self.exchange.fallback = None;
    }

    /// The connection was made. With TLS it stands only after the handshake.
    pub fn handle_connected(&mut self, now: u64)
        ensures
            final(self)@ == (TransferView {
                exchange: progressed(old(self)@.exchange, now, old(self)@.exchange.tls is None),
                ..old(self)@
            }),
            old(self).wf() ==> final(self).wf(),
    {
        let stands = self.exchange.tls.is_none();
        self.exchange.note_progress(now, stands);
    }

    /// Takes what arrived. `capacity` is the room of the send queue, where output may be queued.
    pub fn handle_data(&mut self, received: Received, now: u64, capacity: Option<usize>) -> (result: (
        TransferOutcome,
        Vec<u8>,
    ))
        requires
            old(self).wf(),
        ensures
            data_handled(
                old(self)@,
                received.plaintext@,
                received.tls,
                received.peer_closed,
                now,
                capacity,
            ) == (Stepped {
                transfer: final(self)@,
                outcome: result.0@,
                outbound: result.1@,
            }),
            result.0 is Running ==> final(self).wf(),
            transfer_sink_ok(final(self)@),
            final(self).exchange.wf(),
    {
        let waiting = match &self.response {
            TransferResponse::Streaming(stream) => stream.stream_plaintext().len() > 0,
            TransferResponse::Buffered(_) => false,
        };
        if self.exchange.tls.is_none() && waiting {
            let nothing: Vec<u8> = Vec::new();
            assert(nothing@ =~= Seq::empty());
            return (
                TransferOutcome::Failed(
                    Error::new(
                        ErrorKind::Internal,
                        "native cleartext accepted bytes while streaming plaintext remained",
                    ),
                ),
                nothing,
            );
        }
        let (outbound, failure) = self.exchange.note_arrival(received.tls, now, capacity);
        if let Some(error) = failure {
            return (TransferOutcome::Failed(error), outbound);
        }
        let outcome = self.take_plaintext(received.plaintext.as_slice(), received.peer_closed);
        (outcome, outbound)
    }

    fn take_plaintext(&mut self, plaintext: &[u8], peer_closed: bool) -> (result: TransferOutcome)
        requires
            old(self).wf(),
        ensures
            match old(self)@.response {
                TransferResponseView::Buffered(decoder) => buffered_received(
                    old(self)@.exchange,
                    decoder,
                    plaintext@,
                    peer_closed,
                ),
                TransferResponseView::Streaming(stream) => stream_received(
                    old(self)@.exchange,
                    stream,
                    plaintext@,
                    peer_closed,
                ),
            } == (final(self)@, result@),
            result is Running ==> final(self).wf(),
            transfer_sink_ok(final(self)@),
            final(self).exchange.wf(),
    {
        match &mut self.response {
            TransferResponse::Buffered(decoder) => take_data(
                &mut self.exchange,
                decoder,
                plaintext,
                peer_closed,
            ),
            TransferResponse::Streaming(stream) => take_stream(
                &mut self.exchange,
                stream,
                plaintext,
                peer_closed,
            ),
        }
    }

    /// Takes the end of the connection.
    pub fn handle_peer_closed(&mut self) -> (result: TransferOutcome)
        requires
            old(self).wf(),
        ensures
            close_handled(old(self)@) == (final(self)@, result@),
            result is Running ==> final(self).wf(),
            transfer_sink_ok(final(self)@),
            final(self).exchange.wf(),
    {
        let nothing: Vec<u8> = Vec::new();
        assert(nothing@ =~= Seq::empty());
        match &self.exchange.tls {
            Some(tls) => {
                if tls.handshaking {
                    return TransferOutcome::Failed(
                        Error::tls(
                            TlsFailure::Protocol,
                            "the peer closed during the TLS handshake",
                        ),
                    );
                }
                match &mut self.response {
                    TransferResponse::Buffered(_) => TransferOutcome::Failed(
                        Error::transport(
                            TransportStage::Receive,
                            "the TLS peer closed without an authenticated close notification",
                        ),
                    ),
                    TransferResponse::Streaming(stream) => {
                        stream.mark_dirty_eof();
                        take_stream(&mut self.exchange, stream, nothing.as_slice(), false)
                    },
                }
            },
            None => match &mut self.response {
                TransferResponse::Buffered(decoder) => end_buffered(
                    decoder,
                    "the peer closed without completing a response",
                ),
                TransferResponse::Streaming(stream) => take_stream(
                    &mut self.exchange,
                    stream,
                    nothing.as_slice(),
                    true,
                ),
            },
        }
    }

    /// The error that a failure of the connection becomes.
    pub fn fail_native(&self, failure: &NativeFailure) -> (result: Error)
        ensures
            result@ == connection_failure(self@.exchange, failure@),
    {
        let handshaking = match &self.exchange.tls {
            Some(tls) => tls.handshaking,
            None => false,
        };
        let reading = match failure.kind {
            NativeFailureKind::Read => true,
            _ => false,
        };
        if handshaking {
            let mut message = "the connection failed during the TLS handshake: ".to_owned();
            message.append(failure.message.as_str());
            Error::tls(TlsFailure::Io, message.as_str())
        } else if reading && self.exchange.body_bearing && !self.exchange.response_started {
            Error::transport(
                TransportStage::Send,
                "the connection failed during a body-bearing exchange before any response bytes arrived",
            )
        } else {
            native_transport_error(failure)
        }
    }

    /// Takes a deadline of the socket layer that went off.
    pub fn handle_deadline(&self, now: u64) -> (result: TransferOutcome)
        ensures
            result@ == deadline_handled(self@.exchange, now),
    {
        if has_passed(self.next_deadline(), now) {
            TransferOutcome::Failed(expired_error(self.expired_timeout(now)))
        } else {
            TransferOutcome::Running
        }
    }

    /// Refreshes how many bytes may be read from the connection, and whether inactivity counts.
    pub fn refresh_stream_allowance(&mut self, now: u64) -> (result: Option<usize>)
        requires
            old(self).wf(),
        ensures
            final(self).wf(),
            allowance_refreshed(old(self)@, now) == (
                final(self)@,
                match result {
                    Some(allowance) => Some(allowance as nat),
                    None => None,
                },
            ),
    {
        let tls = self.exchange.tls.is_some();
        match &self.response {
            TransferResponse::Buffered(_) => None,
            TransferResponse::Streaming(stream) => {
                let allowance = if !tls && stream.stream_plaintext().len() > 0 {
                    0
                } else {
                    stream.decoder.socket_capacity()
                };
                let blocked = stream.decoder.is_consumer_blocked();
                self.exchange.follow_reader(blocked, now);
                Some(allowance)
            },
        }
    }

    /// Lets a delivered response go on after the reader took bytes out.
    pub fn resume_stream(&mut self) -> (result: TransferOutcome)
        requires
            old(self).wf(),
        ensures
            match old(self)@.response {
                TransferResponseView::Streaming(stream) => stream_received(
                    old(self)@.exchange,
                    stream,
                    Seq::empty(),
                    false,
                ) == (final(self)@, result@),
                TransferResponseView::Buffered(_) => final(self)@ == old(self)@
                    && result is Running,
            },
            result is Running ==> final(self).wf(),
            transfer_sink_ok(final(self)@),
            final(self).exchange.wf(),
    {
        let nothing: Vec<u8> = Vec::new();
        assert(nothing@ =~= Seq::empty());
        match &mut self.response {
            TransferResponse::Buffered(_) => TransferOutcome::Running,
            TransferResponse::Streaming(stream) => take_stream(
                &mut self.exchange,
                stream,
                nothing.as_slice(),
                false,
            ),
        }
    }
}

} // verus!
