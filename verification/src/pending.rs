//! Requests that wait for a connection.

use crate::deadline::{classify_timeout, deadline_after, due, earlier, passed_kind, sooner};
use crate::decoder::{fresh_decoder, ResponseDecoder};
use crate::exchange::{
    upload_view, Exchange, ExchangeView, Fallback, FallbackView,
};
use crate::origin::{http_origin, origin_of, OriginView, Scheme};
use crate::pool::{ConnectionKey, KeyView, TlsPhase};
use crate::request::{
    serialize_request_with_upload, serialized, SerializedRequest, SerializedView,
};
use crate::stream::{sink_finish, sink_ok, ResponseSink, SinkEndView, SinkView};
use crate::stream_decoder::{fresh_stream, StreamingResponseDecoder};
use crate::text::{lower, wire};
use crate::transfer::{
    HttpTransfer, StreamTransfer, StreamTransferView, TransferResponse, TransferResponseView,
    TransferView,
};
use crate::types::{
    copy_bytes, plain_error, Error, ErrorKind, ErrorView, HttpLimits, Options, Request, RequestView,
    Response, ResponseView, TimeoutKind, TlsVerification,
};
use crate::upload::{
    upload_ok, NativeUpload, NativeUploadView, UploadBody, UploadView,
};
use vstd::prelude::*;
use vstd::string::*;

verus! {

/// How a request ended.
#[derive(Debug)]
pub enum Completion {
    Completed(Response),
    Failed(Error),
    Cancelled,
    /// The response was delivered through a sink; this is how the sink was left.
    Delivered(ResponseSink),
}

/// What a [`Completion`] says.
pub enum CompletionView {
    Completed(ResponseView),
    Failed(ErrorView),
    Cancelled,
    Delivered(SinkView),
}

impl View for Completion {
    type V = CompletionView;

    open spec fn view(&self) -> CompletionView {
        match self {
            Completion::Completed(response) => CompletionView::Completed(response@),
            Completion::Failed(error) => CompletionView::Failed(error@),
            Completion::Cancelled => CompletionView::Cancelled,
            Completion::Delivered(sink) => CompletionView::Delivered(sink@),
        }
    }
}

/// How the response to a request that waits will be received, with the body that a streamed request
/// brings along.
#[derive(Debug)]
pub enum PendingResponse {
    Buffered,
    Streaming { response: ResponseSink, upload: Option<UploadBody> },
}

/// What a [`PendingResponse`] holds.
pub enum PendingResponseView {
    Buffered,
    Streaming { response: SinkView, upload: Option<UploadView> },
}

/// What an optional request body holds.
pub open spec fn body_view(upload: Option<UploadBody>) -> Option<UploadView> {
    match upload {
        Some(upload) => Some(upload@),
        None => None,
    }
}

impl View for PendingResponse {
    type V = PendingResponseView;

    open spec fn view(&self) -> PendingResponseView {
        match self {
            PendingResponse::Buffered => PendingResponseView::Buffered,
            PendingResponse::Streaming { response, upload } => PendingResponseView::Streaming {
                response: response@,
                upload: body_view(*upload),
            },
        }
    }
}

/// The body that a streamed request brings along.
pub open spec fn pending_upload(response: PendingResponseView) -> Option<UploadView> {
    match response {
        PendingResponseView::Buffered => None,
        PendingResponseView::Streaming { upload, .. } => upload,
    }
}

/// The sink and the body are in order.
pub open spec fn pending_response_ok(response: PendingResponseView) -> bool {
    match response {
        PendingResponseView::Buffered => true,
        PendingResponseView::Streaming { response, upload } => sink_ok(response) && (
        upload matches Some(body) ==> upload_ok(body)),
    }
}

/// How a request that waits ends with an error.
pub open spec fn pending_failed(response: PendingResponseView, error: ErrorView) -> CompletionView {
    match response {
        PendingResponseView::Buffered => CompletionView::Failed(error),
        PendingResponseView::Streaming { response, .. } => CompletionView::Delivered(
            sink_finish(response, SinkEndView::Failed(error)),
        ),
    }
}

/// How the response is received once there is a connection.
pub open spec fn activated(
    response: PendingResponseView,
    response_to_head: bool,
    limits: HttpLimits,
) -> (TransferResponseView, Option<NativeUploadView>) {
    match response {
        PendingResponseView::Buffered => (
            TransferResponseView::Buffered(fresh_decoder(response_to_head, limits)),
            None,
        ),
        PendingResponseView::Streaming { response, upload } => (
            TransferResponseView::Streaming(
                StreamTransferView {
                    decoder: fresh_stream(response_to_head, limits, response),
                    plaintext: Seq::empty(),
                    peer_closed: false,
                    tls_dirty_eof: false,
                    redirect: None,
                },
            ),
            match upload {
                Some(body) => Some(
                    NativeUploadView {
                        body,
                        framing: body.framing,
                        producer_finished: false,
                        pending_wire: None,
                    },
                ),
                None => None,
            },
        ),
    }
}

impl PendingResponse {
    pub open spec fn wf(&self) -> bool {
        pending_response_ok(self@)
    }

    /// The body that a streamed request brings along.
    pub fn upload(&self) -> (result: Option<&UploadBody>)
        ensures
            match result {
                Some(body) => pending_upload(self@) == Some(body@),
                None => pending_upload(self@) is None,
            },
    {
        match self {
            PendingResponse::Buffered => None,
            PendingResponse::Streaming { upload, .. } => match upload {
                Some(body) => Some(body),
                None => None,
            },
        }
    }

    /// Ends the request with an error.
    pub fn fail(self, error: Error) -> (result: Completion)
        requires
            self.wf(),
        ensures
            result@ == pending_failed(self@, error@),
    {
        match self {
            PendingResponse::Buffered => Completion::Failed(error),
            PendingResponse::Streaming { response, upload: _ } => {
                let mut response = response;
                response.fail(error);
                Completion::Delivered(response)
            },
        }
    }

    /// Starts to receive the response.
    pub fn into_active(self, response_to_head: bool, limits: HttpLimits) -> (result: (
        TransferResponse,
        Option<NativeUpload>,
    ))
        requires
            self.wf(),
        ensures
            activated(self@, response_to_head, limits) == (result.0@, upload_view(result.1)),
            result.0.wf(),
            result.1 matches Some(upload) ==> upload.wf(),
    {
        match self {
            PendingResponse::Buffered => (
                TransferResponse::Buffered(ResponseDecoder::new(response_to_head, limits)),
                None,
            ),
            PendingResponse::Streaming { response, upload } => {
                let decoder = StreamingResponseDecoder::new(response_to_head, limits, response);
                let stream = StreamTransfer {
                    decoder,
                    retained_cleartext: Vec::new(),
                    peer_closed: false,
                    tls_dirty_eof: false,
                    redirect: None,
                };
                assert(stream@.plaintext =~= Seq::empty());
                let upload = match upload {
                    Some(body) => Some(NativeUpload::new(body)),
                    None => None,
                };
                (TransferResponse::Streaming(stream), upload)
            },
        }
    }
}

/// The deadlines of a request that waits.
#[derive(Clone, Copy, Debug, PartialEq, Eq, Structural)]
pub struct PendingDeadlines {
    pub connect: Option<u64>,
    pub total: Option<u64>,
    pub inactivity: Option<u64>,
}

/// A request that waits for a connection.
#[derive(Debug)]
pub struct PendingResolve {
    pub request_id: u64,
    pub serialized: SerializedRequest,
    pub port: u16,
    pub scheme: Scheme,
    pub host: Vec<u8>,
    pub tls_verification: TlsVerification,
    pub body_bearing: bool,
    pub connect_deadline: Option<u64>,
    pub total_deadline: Option<u64>,
    pub inactivity_timeout: Option<u64>,
    pub inactivity_deadline: Option<u64>,
    pub key: ConnectionKey,
    pub request: Request,
    pub redirect_hops: u8,
    pub response: PendingResponse,
}

/// What a [`PendingResolve`] holds.
pub struct PendingView {
    pub request_id: u64,
    pub serialized: SerializedView,
    pub port: u16,
    pub scheme: Scheme,
    pub host: Seq<u8>,
    pub tls_verification: TlsVerification,
    pub body_bearing: bool,
    pub connect_deadline: Option<u64>,
    pub total_deadline: Option<u64>,
    pub inactivity_timeout: Option<u64>,
    pub inactivity_deadline: Option<u64>,
    pub key: KeyView,
    pub request: RequestView,
    pub redirect_hops: u8,
    pub response: PendingResponseView,
}

impl View for PendingResolve {
    type V = PendingView;

    open spec fn view(&self) -> PendingView {
        PendingView {
            request_id: self.request_id,
            serialized: self.serialized@,
            port: self.port,
            scheme: self.scheme,
            host: self.host@,
            tls_verification: self.tls_verification,
            body_bearing: self.body_bearing,
            connect_deadline: self.connect_deadline,
            total_deadline: self.total_deadline,
            inactivity_timeout: self.inactivity_timeout,
            inactivity_deadline: self.inactivity_deadline,
            key: self.key@,
            request: self.request@,
            redirect_hops: self.redirect_hops,
            response: self.response@,
        }
    }
}

/// The deadline that counts next while a request waits.
pub open spec fn pending_deadline(pending: PendingView) -> Option<u64> {
    sooner(
        sooner(pending.connect_deadline, pending.total_deadline),
        pending.inactivity_deadline,
    )
}

/// Which deadline has passed while a request waits.
pub open spec fn pending_timeout(pending: PendingView, now: u64) -> TimeoutKind {
    passed_kind(pending.total_deadline, pending.connect_deadline, pending.inactivity_deadline, now)
}

impl PendingResolve {
    pub open spec fn wf(&self) -> bool {
        self.response.wf()
    }

    /// Ends the request with an error.
    pub fn fail(self, error: Error) -> (result: Completion)
        requires
            self.wf(),
        ensures
            result@ == pending_failed(self@.response, error@),
    {
        self.response.fail(error)
    }

    /// The deadline that counts next.
    pub fn next_deadline(&self) -> (result: Option<u64>)
        ensures
            result == pending_deadline(self@),
    {
        earlier(earlier(self.connect_deadline, self.total_deadline), self.inactivity_deadline)
    }

    /// Which deadline has passed.
    pub fn expired_timeout(&self, now: u64) -> (result: TimeoutKind)
        ensures
            result == pending_timeout(self@, now),
    {
        classify_timeout(
            self.total_deadline,
            self.connect_deadline,
            self.inactivity_deadline,
            now,
        )
    }
}

/// A byte string with its ASCII letters in lower case.
pub open spec fn lowered(bytes: Seq<u8>) -> Seq<u8> {
    bytes.map_values(|byte: u8| lower(byte))
}

fn to_ascii_lowercase(bytes: &[u8]) -> (result: Vec<u8>)
    ensures
        result@ == lowered(bytes@),
{
    let mut low: Vec<u8> = Vec::new();
    let mut i: usize = 0;
    while i < bytes.len()
        invariant
            i <= bytes@.len(),
            low@ == lowered(bytes@.take(i as int)),
        decreases bytes@.len() - i,
    {
        let byte: u8 = bytes[i];
        low.push(
            if 0x41 <= byte && byte <= 0x5a {
                byte + 0x20
            } else {
                byte
            },
        );
        assert(low@ =~= lowered(bytes@.take(i + 1)));
        i += 1;
    }
    assert(bytes@.take(i as int) =~= bytes@);
    low
}

/// The key that connections for a request must have.
pub open spec fn connection_key(origin: OriginView, verification: TlsVerification) -> KeyView {
    KeyView {
        scheme: origin.scheme,
        host: lowered(origin.host),
        port: origin.port,
        dangerously_disable_tls_verification: verification
            is DangerouslyDisableCertificateVerification,
    }
}

/// How a request becomes one that waits for a connection.
pub open spec fn pending_made(
    limits: HttpLimits,
    request_id: u64,
    request: RequestView,
    deadlines: PendingDeadlines,
    redirect_hops: u8,
    origin_error_kind: ErrorKind,
    response: PendingResponseView,
) -> Result<PendingView, ErrorView> {
    let upload = pending_upload(response);
    let framing = match upload {
        Some(body) => Some(body.framing),
        None => None,
    };
    match serialized(request, limits, framing) {
        Err(error) => Err(error),
        Ok(bytes) => match origin_of(wire(request.url)) {
            None => Err(plain_error(origin_error_kind, "the URL has no usable HTTP origin"@)),
            Some(origin) => Ok(
                PendingView {
                    request_id,
                    serialized: bytes,
                    port: origin.port,
                    scheme: origin.scheme,
                    host: origin.host,
                    tls_verification: request.options.tls_verification,
                    body_bearing: upload is Some || request.body.len() > 0,
                    connect_deadline: deadlines.connect,
                    total_deadline: deadlines.total,
                    inactivity_timeout: request.options.inactivity_timeout,
                    inactivity_deadline: deadlines.inactivity,
                    key: connection_key(origin, request.options.tls_verification),
                    request,
                    redirect_hops,
                    response,
                },
            ),
        },
    }
}

/// Makes a request ready to wait for a connection. Where it cannot be sent, its response side comes
/// back with the error.
pub fn make_pending(
    limits: HttpLimits,
    request_id: u64,
    request: Request,
    deadlines: PendingDeadlines,
    redirect_hops: u8,
    origin_error_kind: ErrorKind,
    response: PendingResponse,
) -> (result: Result<PendingResolve, (Error, PendingResponse)>)
    requires
        response.wf(),
    ensures
        match result {
            Ok(pending) => pending_made(
                limits,
                request_id,
                request@,
                deadlines,
                redirect_hops,
                origin_error_kind,
                response@,
            ) == Ok::<PendingView, ErrorView>(pending@) && pending.wf(),
            Err((error, returned)) => pending_made(
                limits,
                request_id,
                request@,
                deadlines,
                redirect_hops,
                origin_error_kind,
                response@,
            ) == Err::<PendingView, ErrorView>(error@) && returned == response,
        },
{
    let (framing, streamed) = match response.upload() {
        Some(body) => (Some(body.framing()), true),
        None => (None, false),
    };
    let serialized = match serialize_request_with_upload(&request, limits, framing) {
        Ok(serialized) => serialized,
        Err(error) => {
            return Err((error, response));
        },
    };
    let origin = match http_origin(request.url.as_str(), origin_error_kind) {
        Ok(origin) => origin,
        Err(error) => {
            return Err((error, response));
        },
    };
    let tls_verification = request.options.tls_verification;
    let insecure = match tls_verification {
        TlsVerification::DangerouslyDisableCertificateVerification => true,
        TlsVerification::Platform => false,
    };
    let key = ConnectionKey {
        scheme: origin.scheme,
        host: to_ascii_lowercase(origin.host.as_slice()),
        port: origin.port,
        dangerously_disable_tls_verification: insecure,
    };
    let body_bearing = streamed || request.body.len() > 0;
    Ok(
        PendingResolve {
            request_id,
            serialized,
            port: origin.port,
            scheme: origin.scheme,
            host: origin.host,
            tls_verification,
            body_bearing,
            connect_deadline: deadlines.connect,
            total_deadline: deadlines.total,
            inactivity_timeout: request.options.inactivity_timeout,
            inactivity_deadline: deadlines.inactivity,
            key,
            request,
            redirect_hops,
            response,
        },
    )
}

/// The deadlines of a request that was accepted at a given time.
pub open spec fn accepted_deadlines(options: Options, accepted_at: u64) -> PendingDeadlines {
    PendingDeadlines {
        connect: due(accepted_at, options.connect_timeout),
        total: due(accepted_at, options.total_timeout),
        inactivity: due(accepted_at, options.inactivity_timeout),
    }
}

/// The deadlines of a request that was accepted at a given time.
pub fn deadlines_from(options: &Options, accepted_at: u64) -> (result: PendingDeadlines)
    ensures
        result == accepted_deadlines(*options, accepted_at),
{
    PendingDeadlines {
        connect: deadline_after(accepted_at, options.connect_timeout),
        total: deadline_after(accepted_at, options.total_timeout),
        inactivity: deadline_after(accepted_at, options.inactivity_timeout),
    }
}

/// The deadlines of a request that follows a redirect: the total one is that of the first request.
pub open spec fn redirect_deadlines(options: Options, total: Option<u64>, now: u64) -> PendingDeadlines {
    PendingDeadlines {
        connect: due(now, options.connect_timeout),
        total,
        inactivity: due(now, options.inactivity_timeout),
    }
}

/// The deadlines of a request that follows a redirect.
pub fn deadlines_after_redirect(options: &Options, total: Option<u64>, now: u64) -> (result:
    PendingDeadlines)
    ensures
        result == redirect_deadlines(*options, total, now),
{
    PendingDeadlines {
        connect: deadline_after(now, options.connect_timeout),
        total,
        inactivity: deadline_after(now, options.inactivity_timeout),
    }
}

/// The exchange that a request starts on a connection. On a new one, inactivity counts from now on.
pub open spec fn started(
    pending: PendingView,
    connected: bool,
    tls: Option<TlsPhase>,
    inactivity_deadline: Option<u64>,
    limits: HttpLimits,
) -> TransferView {
    let (response, upload) = activated(
        pending.response,
        pending.serialized.response_to_head,
        limits,
    );
    TransferView {
        exchange: ExchangeView {
            request_id: pending.request_id,
            body_bearing: pending.body_bearing,
            response_started: false,
            connected,
            tls,
            connect_deadline: pending.connect_deadline,
            total_deadline: pending.total_deadline,
            inactivity_timeout: pending.inactivity_timeout,
            inactivity_deadline,
            inactivity_paused: false,
            key: pending.key,
            request_permits_reuse: pending.serialized.permits_reuse,
            request_write_drained: false,
            request: pending.request,
            redirect_hops: pending.redirect_hops,
            upload,
            upload_aborted: false,
            fallback: if connected {
                Some(
                    FallbackView {
                        serialized: pending.serialized,
                        scheme: pending.scheme,
                        host: pending.host,
                        port: pending.port,
                        tls_verification: pending.tls_verification,
                    },
                )
            } else {
                None
            },
        },
        response,
    }
}

/// The request of an exchange that has not begun, as it was before it got its connection.
pub open spec fn retried(transfer: TransferView, fallback: FallbackView) -> PendingView {
    let exchange = transfer.exchange;
    PendingView {
        request_id: exchange.request_id,
        serialized: fallback.serialized,
        port: fallback.port,
        scheme: fallback.scheme,
        host: fallback.host,
        tls_verification: fallback.tls_verification,
        body_bearing: exchange.body_bearing,
        connect_deadline: exchange.connect_deadline,
        total_deadline: exchange.total_deadline,
        inactivity_timeout: exchange.inactivity_timeout,
        inactivity_deadline: exchange.inactivity_deadline,
        key: exchange.key,
        request: exchange.request,
        redirect_hops: exchange.redirect_hops,
        response: match transfer.response {
            TransferResponseView::Buffered(_) => PendingResponseView::Buffered,
            TransferResponseView::Streaming(stream) => PendingResponseView::Streaming {
                response: stream.decoder.response->0,
                upload: match exchange.upload {
                    Some(upload) => Some(upload.body),
                    None => None,
                },
            },
        },
    }
}

/// Gives the request of an exchange back, where it may be sent anew.
pub fn retry_transfer(transfer: HttpTransfer) -> (result: Option<PendingResolve>)
    requires
        transfer.wf(),
    ensures
        match result {
            Some(pending) => {
                &&& transfer@.exchange.fallback matches Some(fallback)
                &&& pending@ == retried(transfer@, fallback)
                &&& pending.wf()
            },
            None => transfer@.exchange.fallback is None,
        },
{
    let HttpTransfer { exchange, response } = transfer;
    let fallback = match exchange.fallback {
        Some(fallback) => fallback,
        None => {
            return None;
        },
    };
    let body = match exchange.upload {
        Some(upload) => Some(upload.body),
        None => None,
    };
    let response = match response {
        TransferResponse::Buffered(_) => PendingResponse::Buffered,
        TransferResponse::Streaming(stream) => match stream.decoder.response {
            Some(sink) => PendingResponse::Streaming { response: sink, upload: body },
            None => PendingResponse::Buffered,
        },
    };
    Some(
        PendingResolve {
            request_id: exchange.request_id,
            serialized: fallback.serialized,
            port: fallback.port,
            scheme: fallback.scheme,
            host: fallback.host,
            tls_verification: fallback.tls_verification,
            body_bearing: exchange.body_bearing,
            connect_deadline: exchange.connect_deadline,
            total_deadline: exchange.total_deadline,
            inactivity_timeout: exchange.inactivity_timeout,
            inactivity_deadline: exchange.inactivity_deadline,
            key: exchange.key,
            request: exchange.request,
            redirect_hops: exchange.redirect_hops,
            response,
        },
    )
}

/// A request that was put on an idle connection and comes back is the request that it was.
pub proof fn lemma_retry_undoes_the_start(
    pending: PendingView,
    tls: Option<TlsPhase>,
    limits: HttpLimits,
)
    ensures
        started(pending, true, tls, pending.inactivity_deadline, limits).exchange.fallback is Some,
        retried(
            started(pending, true, tls, pending.inactivity_deadline, limits),
            started(
                pending,
                true,
                tls,
                pending.inactivity_deadline,
                limits,
            ).exchange.fallback->0,
        ) == pending,
{
}

/// Starts the exchange on a connection; the bytes of the request go out first.
pub fn start_transfer(
    pending: PendingResolve,
    connected: bool,
    tls: Option<TlsPhase>,
    inactivity_deadline: Option<u64>,
    limits: HttpLimits,
) -> (result: (HttpTransfer, Vec<u8>))
    requires
        pending.wf(),
    ensures
        result.0.wf(),
        result.0@ == started(pending@, connected, tls, inactivity_deadline, limits),
        result.1@ == pending@.serialized.bytes,
{
    let (response, upload) = pending.response.into_active(
        pending.serialized.response_to_head,
        limits,
    );
    let permits_reuse = pending.serialized.permits_reuse;
    let (fallback, bytes) = if connected {
        let bytes = copy_bytes(pending.serialized.bytes.as_slice());
        (
            Some(
                Fallback {
                    serialized: pending.serialized,
                    scheme: pending.scheme,
                    host: pending.host,
                    port: pending.port,
                    tls_verification: pending.tls_verification,
                },
            ),
            bytes,
        )
    } else {
        (None, pending.serialized.bytes)
    };
    let transfer = HttpTransfer {
        exchange: Exchange {
            request_id: pending.request_id,
            body_bearing: pending.body_bearing,
            response_started: false,
            connected,
            tls,
            connect_deadline: pending.connect_deadline,
            total_deadline: pending.total_deadline,
            inactivity_timeout: pending.inactivity_timeout,
            inactivity_deadline,
            inactivity_paused: false,
            key: pending.key,
            request_permits_reuse: permits_reuse,
            request_write_drained: false,
            request: pending.request,
            redirect_hops: pending.redirect_hops,
            upload,
            upload_aborted: false,
            fallback,
        },
        response,
    };
    (transfer, bytes)
}

} // verus!
