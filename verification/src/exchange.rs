//! The part of an exchange that concerns its request: deadlines, progress and output.

use crate::deadline::{classify_timeout, deadline_after, due, earlier, passed_kind, sooner};
use crate::origin::Scheme;
use crate::pool::{ConnectionKey, KeyView, TlsPhase};
use crate::redirect::{
    redirect_target, redirected, redirected_request, request_view, resolved_redirect_target_from_headers,
};
use crate::request::{SerializedRequest, SerializedView};
use crate::types::{
    Error, ErrorView, Request, RequestView, ResponseHead, ResponseHeadView, TimeoutKind,
    TlsVerification,
};
use crate::upload::{
    popped, sent_next, upload_ok, NativeUpload, NativeUploadView, UploadWire, UploadWireView,
};
use vstd::prelude::*;

verus! {

/// What it takes to send a request anew: its bytes, and where they go.
#[derive(Debug)]
pub struct Fallback {
    pub serialized: SerializedRequest,
    pub scheme: Scheme,
    pub host: Vec<u8>,
    pub port: u16,
    pub tls_verification: TlsVerification,
}

/// What a [`Fallback`] holds.
pub struct FallbackView {
    pub serialized: SerializedView,
    pub scheme: Scheme,
    pub host: Seq<u8>,
    pub port: u16,
    pub tls_verification: TlsVerification,
}

impl View for Fallback {
    type V = FallbackView;

    open spec fn view(&self) -> FallbackView {
        FallbackView {
            serialized: self.serialized@,
            scheme: self.scheme,
            host: self.host@,
            port: self.port,
            tls_verification: self.tls_verification,
        }
    }
}

/// What an optional fallback holds.
pub open spec fn fallback_view(fallback: Option<Fallback>) -> Option<FallbackView> {
    match fallback {
        Some(fallback) => Some(fallback@),
        None => None,
    }
}

/// An exchange, apart from how its response is received. On a connection that was idle there is a
/// fallback, until something happens on the connection: so long the request may be sent anew.
pub struct Exchange {
    pub request_id: u64,
    pub body_bearing: bool,
    pub response_started: bool,
    pub connected: bool,
    pub tls: Option<TlsPhase>,
    pub connect_deadline: Option<u64>,
    pub total_deadline: Option<u64>,
    pub inactivity_timeout: Option<u64>,
    pub inactivity_deadline: Option<u64>,
    pub inactivity_paused: bool,
    pub key: ConnectionKey,
    pub request_permits_reuse: bool,
    pub request_write_drained: bool,
    pub request: Request,
    pub redirect_hops: u8,
    pub upload: Option<NativeUpload>,
    pub upload_aborted: bool,
    pub fallback: Option<Fallback>,
}

/// What an [`Exchange`] holds.
pub struct ExchangeView {
    pub request_id: u64,
    pub body_bearing: bool,
    pub response_started: bool,
    pub connected: bool,
    pub tls: Option<TlsPhase>,
    pub connect_deadline: Option<u64>,
    pub total_deadline: Option<u64>,
    pub inactivity_timeout: Option<u64>,
    pub inactivity_deadline: Option<u64>,
    pub inactivity_paused: bool,
    pub key: KeyView,
    pub request_permits_reuse: bool,
    pub request_write_drained: bool,
    pub request: RequestView,
    pub redirect_hops: u8,
    pub upload: Option<NativeUploadView>,
    pub upload_aborted: bool,
    pub fallback: Option<FallbackView>,
}

/// What an optional upload holds.
pub open spec fn upload_view(upload: Option<NativeUpload>) -> Option<NativeUploadView> {
    match upload {
        Some(upload) => Some(upload@),
        None => None,
    }
}

impl View for Exchange {
    type V = ExchangeView;

    open spec fn view(&self) -> ExchangeView {
        ExchangeView {
            request_id: self.request_id,
            body_bearing: self.body_bearing,
            response_started: self.response_started,
            connected: self.connected,
            tls: self.tls,
            connect_deadline: self.connect_deadline,
            total_deadline: self.total_deadline,
            inactivity_timeout: self.inactivity_timeout,
            inactivity_deadline: self.inactivity_deadline,
            inactivity_paused: self.inactivity_paused,
            key: self.key@,
            request_permits_reuse: self.request_permits_reuse,
            request_write_drained: self.request_write_drained,
            request: self.request@,
            redirect_hops: self.redirect_hops,
            upload: upload_view(self.upload),
            upload_aborted: self.upload_aborted,
            fallback: fallback_view(self.fallback),
        }
    }
}

/// The deadline that counts next. The connect deadline counts until the connection stands, and the
/// one on inactivity unless it is paused.
pub open spec fn exchange_deadline(exchange: ExchangeView) -> Option<u64> {
    sooner(
        sooner(
            exchange.total_deadline,
            if exchange.connected {
                None
            } else {
                exchange.connect_deadline
            },
        ),
        if exchange.inactivity_paused {
            None
        } else {
            exchange.inactivity_deadline
        },
    )
}

/// Which deadline has passed.
pub open spec fn exchange_timeout(exchange: ExchangeView, now: u64) -> TimeoutKind {
    passed_kind(
        exchange.total_deadline,
        if exchange.connected {
            None
        } else {
            exchange.connect_deadline
        },
        exchange.inactivity_deadline,
        now,
    )
}

/// Progress was made: inactivity counts from now on.
pub open spec fn progressed(exchange: ExchangeView, now: u64, connected: bool) -> ExchangeView {
    ExchangeView {
        connected: exchange.connected || connected,
        inactivity_paused: false,
        inactivity_deadline: due(now, exchange.inactivity_timeout),
        ..exchange
    }
}

/// Whether everything that the request consists of has been handed over for sending.
pub open spec fn output_complete(exchange: ExchangeView) -> bool {
    &&& !exchange.upload_aborted
    &&& exchange.upload matches Some(upload) ==> upload.producer_finished
        && upload.pending_wire is None
    &&& exchange.tls matches Some(tls) ==> tls.request_encrypted
}

/// The exchange after the socket layer reported whether its send queue is empty.
pub open spec fn drained(exchange: ExchangeView, outbound_empty: bool) -> ExchangeView {
    if exchange.connected && output_complete(exchange) && outbound_empty {
        ExchangeView { request_write_drained: true, ..exchange }
    } else {
        exchange
    }
}

/// How much work an upload has left.
pub open spec fn upload_work(upload: NativeUploadView) -> nat {
    2 * upload.body.chunks.len() + (if upload.producer_finished {
        0nat
    } else {
        2nat
    }) + (if upload.pending_wire is Some {
        1nat
    } else {
        0nat
    })
}

/// What pumping an upload led to: what is left of it, the bytes for the wire, and its failure.
pub struct Pumped {
    pub upload: NativeUploadView,
    pub bytes: Seq<u8>,
    pub failure: Option<ErrorView>,
}

/// Takes as much out of an upload as fits into the send queue.
pub open spec fn pumped_clear(upload: NativeUploadView, capacity: nat) -> Pumped
    decreases upload_work(upload),
    via pumped_clear_decreases
{
    match sent_next(upload, Some(capacity as usize)) {
        Err(error) => Pumped {
            upload: popped(upload),
            bytes: Seq::empty(),
            failure: Some(error),
        },
        Ok((next, UploadWireView::Bytes(wire))) => {
            let rest = pumped_clear(next, (capacity - wire.len()) as nat);
            Pumped { bytes: wire + rest.bytes, ..rest }
        },
        Ok((next, _)) => Pumped { upload: next, bytes: Seq::empty(), failure: None },
    }
}

#[via_fn]
proof fn pumped_clear_decreases(upload: NativeUploadView, capacity: nat) {
    lemma_upload_work_decreases(upload, Some(capacity as usize));
}

/// Each piece that an upload gives out leaves it less work.
pub proof fn lemma_upload_work_decreases(upload: NativeUploadView, capacity: Option<usize>)
    ensures
        sent_next(upload, capacity) matches Ok((next, UploadWireView::Bytes(_))) ==> upload_work(
            next,
        ) < upload_work(upload),
{
}

/// Takes the next piece out of an upload for a TLS session that has encrypted all it was given.
pub open spec fn pumped_secure(upload: NativeUploadView) -> Pumped {
    match sent_next(upload, None) {
        Err(error) => Pumped {
            upload: popped(upload),
            bytes: Seq::empty(),
            failure: Some(error),
        },
        Ok((next, UploadWireView::Bytes(wire))) => Pumped {
            upload: next,
            bytes: wire,
            failure: None,
        },
        Ok((next, _)) => Pumped { upload: next, bytes: Seq::empty(), failure: None },
    }
}

/// What pumping a request's output leads to: the exchange, the bytes for the wire or for the TLS
/// session, and the failure of the upload.
pub open spec fn output_pumped(exchange: ExchangeView, capacity: nat) -> (
    ExchangeView,
    Seq<u8>,
    Option<ErrorView>,
) {
    match exchange.upload {
        None => (exchange, Seq::empty(), None),
        Some(upload) => match exchange.tls {
            None => {
                let step = pumped_clear(upload, capacity);
                (
                    ExchangeView { upload: Some(step.upload), ..exchange },
                    step.bytes,
                    step.failure,
                )
            },
            Some(tls) => if tls.handshaking || !tls.request_encrypted {
                (exchange, Seq::empty(), None)
            } else {
                let step = pumped_secure(upload);
                (
                    ExchangeView {
                        upload: Some(step.upload),
                        tls: Some(
                            TlsPhase {
                                request_encrypted: step.bytes.len() == 0,
                                ..tls
                            },
                        ),
                        ..exchange
                    },
                    step.bytes,
                    step.failure,
                )
            },
        },
    }
}

/// A state that an exchange without a violation can be in.
pub open spec fn exchange_ok(exchange: ExchangeView) -> bool {
    exchange.upload matches Some(upload) ==> upload_ok(upload.body)
}

/// The redirect that a final head leads to. A request with a streamed body is never sent again.
pub open spec fn stream_redirect(exchange: ExchangeView, head: ResponseHeadView) -> Result<
    Option<RequestView>,
    ErrorView,
> {
    if exchange.upload is Some {
        Ok(None)
    } else {
        redirected(
            exchange.request,
            head.status,
            exchange.redirect_hops,
            redirect_target(exchange.request.url, head.headers),
        )
    }
}

/// The upload is given up once the final head is there; it counts as aborted unless all of it had
/// been written.
pub open spec fn upload_ended(exchange: ExchangeView) -> ExchangeView {
    match exchange.upload {
        None => exchange,
        Some(upload) => ExchangeView {
            upload: None,
            upload_aborted: exchange.upload_aborted || !(upload.producer_finished
                && upload.pending_wire is None) || !exchange.request_write_drained,
            ..exchange
        },
    }
}

/// The exchange after it was noted what its TLS session is doing.
pub open spec fn tls_adopted(exchange: ExchangeView, phase: Option<TlsPhase>) -> ExchangeView {
    if exchange.tls is Some && phase is Some {
        ExchangeView { tls: phase, ..exchange }
    } else {
        exchange
    }
}

/// Whether a report says that the connection stands through TLS.
pub open spec fn establishes(tls: Option<TlsPhase>) -> bool {
    tls matches Some(phase) && !phase.handshaking
}

/// Something arrived: the exchange made progress, which may free output where it may be queued.
#[verifier::opaque]
pub open spec fn arrival_noted(
    exchange: ExchangeView,
    tls: Option<TlsPhase>,
    now: u64,
    capacity: Option<usize>,
) -> (ExchangeView, Seq<u8>, Option<ErrorView>) {
    let established = exchange.tls is Some && establishes(tls);
    let moved = progressed(tls_adopted(exchange, tls), now, established);
    if established && capacity is Some {
        output_pumped(moved, capacity->0 as nat)
    } else {
        (moved, Seq::empty(), None)
    }
}

/// The exchange after it was noted whether the reader holds up delivery.
pub open spec fn reader_followed(exchange: ExchangeView, blocked: bool, now: u64) -> ExchangeView {
    if blocked && !exchange.inactivity_paused {
        ExchangeView { inactivity_paused: true, inactivity_deadline: None, ..exchange }
    } else if !blocked && exchange.inactivity_paused {
        ExchangeView {
            inactivity_paused: false,
            inactivity_deadline: due(now, exchange.inactivity_timeout),
            ..exchange
        }
    } else {
        exchange
    }
}

impl Exchange {
    pub open spec fn wf(&self) -> bool {
        exchange_ok(self@)
    }

    /// The deadline that counts next.
    pub fn next_deadline(&self) -> (result: Option<u64>)
        ensures
            result == exchange_deadline(self@),
    {
        let connect = if self.connected {
            None
        } else {
            self.connect_deadline
        };
        let inactivity = if self.inactivity_paused {
            None
        } else {
            self.inactivity_deadline
        };
        earlier(earlier(self.total_deadline, connect), inactivity)
    }

    /// Notes progress, and gives the deadline that counts next.
    pub fn note_progress(&mut self, now: u64, connected: bool) -> (result: Option<u64>)
        ensures
            final(self)@ == progressed(old(self)@, now, connected),
            result == exchange_deadline(final(self)@),
            old(self).wf() ==> final(self).wf(),
    {
        self.connected = self.connected || connected;
        self.inactivity_paused = false;
        self.inactivity_deadline = deadline_after(now, self.inactivity_timeout);
        self.next_deadline()
    }

    /// Which deadline has passed.
    pub fn expired_timeout(&self, now: u64) -> (result: TimeoutKind)
        ensures
            result == exchange_timeout(self@, now),
    {
        let connect = if self.connected {
            None
        } else {
            self.connect_deadline
        };
        classify_timeout(self.total_deadline, connect, self.inactivity_deadline, now)
    }

    /// Reports whether everything that the request consists of has been handed over for sending.
    pub fn request_output_complete(&self) -> (result: bool)
        ensures
            result == output_complete(self@),
    {
        if self.upload_aborted {
            return false;
        }
        let uploaded = match &self.upload {
            Some(upload) => upload.is_complete(),
            None => true,
        };
        let encrypted = match &self.tls {
            Some(tls) => tls.request_encrypted,
            None => true,
        };
        uploaded && encrypted
    }

    /// Notes whether the send queue of the socket layer is empty.
    pub fn refresh_request_write_drained(&mut self, outbound_empty: bool)
        ensures
            final(self)@ == drained(old(self)@, outbound_empty),
            old(self).wf() ==> final(self).wf(),
    {
        if self.connected && self.request_output_complete() && outbound_empty {
            self.request_write_drained = true;
        }
    }

    /// Takes output out of the upload: as much as fits into a send queue with room for `capacity`
    /// bytes, or, under TLS, the next piece once the session has encrypted all it was given.
    pub fn pump_request_output(&mut self, capacity: usize) -> (result: (Vec<u8>, Option<Error>))
        requires
            old(self).wf(),
        ensures
            final(self).wf(),
            output_pumped(old(self)@, capacity as nat) == (
                final(self)@,
                result.0@,
                error_view(result.1),
            ),
    {
        let mut bytes: Vec<u8> = Vec::new();
        assert(bytes@ =~= Seq::empty());
        match &mut self.upload {
            None => (bytes, None),
            Some(upload) => match &mut self.tls {
                None => {
                    let failure = pump_clear(upload, capacity, &mut bytes);
                    (bytes, failure)
                },
                Some(tls) => {
                    if tls.handshaking || !tls.request_encrypted {
                        return (bytes, None);
                    }
                    match upload.next_wire(None) {
                        Err(error) => (bytes, Some(error)),
                        Ok(UploadWire::Bytes(wire)) => {
                            tls.request_encrypted = wire.len() == 0;
                            (wire, None)
                        },
                        Ok(UploadWire::Pending) => (bytes, None),
                        Ok(UploadWire::Complete) => (bytes, None),
                    }
                },
            },
        }
    }
}

/// What an optional error says.
pub open spec fn error_view(error: Option<Error>) -> Option<ErrorView> {
    match error {
        Some(error) => Some(error@),
        None => None,
    }
}

/// Takes as much out of an upload as fits into the send queue.
fn pump_clear(upload: &mut NativeUpload, capacity: usize, bytes: &mut Vec<u8>) -> (result: Option<
    Error,
>)
    requires
        old(upload).wf(),
        old(bytes)@.len() == 0,
    ensures
        final(upload).wf(),
        pumped_clear(old(upload)@, capacity as nat) == (Pumped {
            upload: final(upload)@,
            bytes: final(bytes)@,
            failure: error_view(result),
        }),
{
    let ghost whole = pumped_clear(upload@, capacity as nat);
    let mut room: usize = capacity;
    assert(bytes@ + whole.bytes =~= whole.bytes);
    loop
        invariant
            upload.wf(),
            whole == pumped_clear(old(upload)@, capacity as nat),
            whole == ({
                let rest = pumped_clear(upload@, room as nat);
                Pumped { bytes: bytes@ + rest.bytes, ..rest }
            }),
        decreases upload_work(upload@),
    {
        proof {
            lemma_upload_work_decreases(upload@, Some(room));
            assert(bytes@ + Seq::<u8>::empty() =~= bytes@);
        }
        let ghost before = bytes@;
        match upload.next_wire(Some(room)) {
            Err(error) => {
                return Some(error);
            },
            Ok(UploadWire::Bytes(wire)) => {
                bytes.extend_from_slice(wire.as_slice());
                room = room - wire.len();
                proof {
                    let rest = pumped_clear(upload@, room as nat);
                    assert(before + (wire@ + rest.bytes) =~= bytes@ + rest.bytes);
                }
            },
            Ok(UploadWire::Pending) => {
                return None;
            },
            Ok(UploadWire::Complete) => {
                return None;
            },
        }
    }
}

impl Exchange {
    /// Notes that bytes of the response arrived.
    pub fn start_response(&mut self)
        ensures
            final(self)@ == (ExchangeView { response_started: true, ..old(self)@ }),
            old(self).wf() ==> final(self).wf(),
    {
        self.response_started = true;
    }

    /// Notes what the TLS session is doing, where there is one.
    pub fn adopt_tls(&mut self, phase: Option<TlsPhase>)
        ensures
            final(self)@ == tls_adopted(old(self)@, phase),
            old(self).wf() ==> final(self).wf(),
    {
        if self.tls.is_some() && phase.is_some() {
            self.tls = phase;
        }
    }

    /// Notes that something arrived, and takes the output that this frees.
    pub fn note_arrival(&mut self, tls: Option<TlsPhase>, now: u64, capacity: Option<usize>) -> (
        result: (Vec<u8>, Option<Error>))
        requires
            old(self).wf(),
        ensures
            final(self).wf(),
            arrival_noted(old(self)@, tls, now, capacity) == (
                final(self)@,
                result.0@,
                error_view(result.1),
            ),
    {
        reveal(arrival_noted);
        let established = self.tls.is_some() && match &tls {
            Some(phase) => !phase.handshaking,
            None => false,
        };
        self.adopt_tls(tls);
        self.note_progress(now, established);
        if established {
            if let Some(capacity) = capacity {
                return self.pump_request_output(capacity);
            }
        }
        let nothing: Vec<u8> = Vec::new();
        assert(nothing@ =~= Seq::empty());
        (nothing, None)
    }

    /// Pauses the deadline on inactivity while the reader holds up delivery, and restarts it when
    /// delivery goes on.
    pub fn follow_reader(&mut self, blocked: bool, now: u64)
        ensures
            final(self)@ == reader_followed(old(self)@, blocked, now),
            old(self).wf() ==> final(self).wf(),
    {
        if blocked && !self.inactivity_paused {
            self.inactivity_paused = true;
            self.inactivity_deadline = None;
        } else if !blocked && self.inactivity_paused {
            self.inactivity_paused = false;
            self.inactivity_deadline = deadline_after(now, self.inactivity_timeout);
        }
    }

    /// Gives up the upload: the producer is told that no more is wanted.
    pub fn end_upload(&mut self)
        requires
            old(self).wf(),
        ensures
            final(self).wf(),
            final(self)@ == upload_ended(old(self)@),
    {
        if let Some(upload) = self.upload.take() {
            let mut upload = upload;
            if !upload.is_complete() || !self.request_write_drained {
                self.upload_aborted = true;
            }
            upload.close();
        }
    }

    /// The redirect that a final head leads to.
    pub fn find_stream_redirect(&self, head: &ResponseHead) -> (result: Result<
        Option<Request>,
        Error,
    >)
        ensures
            match result {
                Ok(next) => stream_redirect(self@, head@) == Ok::<Option<RequestView>, ErrorView>(
                    request_view(next),
                ),
                Err(error) => stream_redirect(self@, head@) == Err::<
                    Option<RequestView>,
                    ErrorView,
                >(error@),
            },
    {
        if self.upload.is_some() {
            return Ok(None);
        }
        let target = resolved_redirect_target_from_headers(&self.request, head.headers.as_slice());
        redirected_request(&self.request, head.status, self.redirect_hops, target)
    }
}

} // verus!
