//! What happens on a connection, and what it does to the exchange that the connection carries.

use crate::exchange::{arrival_noted, drained, output_pumped, progressed, tls_adopted, ExchangeView};
use crate::failure::{NativeFailure, NativeFailureView};
use crate::pool::TlsPhase;
use crate::transfer::{
    allowance_refreshed, buffered_received, close_handled, connection_failure, data_handled,
    deadline_handled, drain_step, head_offered, progress_taken, stream_drained, stream_ended,
    stream_received, transfer_ok, transfer_sink_ok, HttpTransfer, OutcomeView, Received,
    StreamTransferView, TransferOutcome, TransferResponseView, TransferView,
};
use crate::types::{Error, ErrorView};
use vstd::prelude::*;

verus! {

/// What happened on a connection.
#[derive(Debug)]
pub enum EventKind {
    Connected,
    /// Some of the queued bytes were written.
    WriteProgress,
    /// All queued bytes were written.
    WriteDrained,
    /// Bytes arrived; with TLS these are decrypted, and `peer_closed` says whether the session ended
    /// properly.
    Data { plaintext: Vec<u8>, peer_closed: bool },
    /// The peer closed the connection.
    PeerClosed,
    /// The connection failed, and is gone.
    Failed(NativeFailure),
    /// The TLS session refused to go on.
    SessionFailed(Error),
    /// The deadline that was set went off.
    DeadlineExpired,
}

/// What an [`EventKind`] says.
pub enum EventKindView {
    Connected,
    WriteProgress,
    WriteDrained,
    Data { plaintext: Seq<u8>, peer_closed: bool },
    PeerClosed,
    Failed(NativeFailureView),
    SessionFailed(ErrorView),
    DeadlineExpired,
}

impl View for EventKind {
    type V = EventKindView;

    open spec fn view(&self) -> EventKindView {
        match self {
            EventKind::Connected => EventKindView::Connected,
            EventKind::WriteProgress => EventKindView::WriteProgress,
            EventKind::WriteDrained => EventKindView::WriteDrained,
            EventKind::Data { plaintext, peer_closed } => EventKindView::Data {
                plaintext: plaintext@,
                peer_closed: *peer_closed,
            },
            EventKind::PeerClosed => EventKindView::PeerClosed,
            EventKind::Failed(failure) => EventKindView::Failed(failure@),
            EventKind::SessionFailed(error) => EventKindView::SessionFailed(error@),
            EventKind::DeadlineExpired => EventKindView::DeadlineExpired,
        }
    }
}

/// How a connection stands: what its TLS session is doing where it has one, how many bytes its send
/// queue takes, and whether that queue is empty.
#[derive(Clone, Copy, Debug, PartialEq, Eq, Structural)]
pub struct SocketReport {
    pub slot: u64,
    pub tls: Option<TlsPhase>,
    pub room: usize,
    pub outbound_empty: bool,
}

/// Something that happened on a connection, and how the connection stands afterwards.
#[derive(Debug)]
pub struct NativeEvent {
    pub report: SocketReport,
    pub kind: EventKind,
}

/// What a [`NativeEvent`] says.
pub struct EventView {
    pub report: SocketReport,
    pub kind: EventKindView,
}

impl View for NativeEvent {
    type V = EventView;

    open spec fn view(&self) -> EventView {
        EventView { report: self.report, kind: self.kind@ }
    }
}

/// What became of an exchange: its state, how it goes on, the bytes that go out, and how many bytes
/// may be read from now on where that is to be set.
pub struct Step {
    pub transfer: TransferView,
    pub outcome: OutcomeView,
    pub outbound: Seq<u8>,
    pub allowance: Option<nat>,
}

/// The request's output goes on, where it may be queued.
pub open spec fn output_step(transfer: TransferView, room: usize, armed: bool) -> Step {
    if armed {
        let (exchange, outbound, failure) = output_pumped(transfer.exchange, room as nat);
        Step {
            transfer: TransferView { exchange, ..transfer },
            outcome: match failure {
                Some(error) => OutcomeView::Failed(error),
                None => OutcomeView::Running,
            },
            outbound,
            allowance: None,
        }
    } else {
        Step {
            transfer,
            outcome: OutcomeView::Running,
            outbound: Seq::empty(),
            allowance: None,
        }
    }
}

/// The exchange made progress.
pub open spec fn moved(
    transfer: TransferView,
    tls: Option<TlsPhase>,
    now: u64,
    connected: bool,
) -> TransferView {
    TransferView {
        exchange: progressed(tls_adopted(transfer.exchange, tls), now, connected),
        ..transfer
    }
}

/// Once nothing more goes out, it is noted whether everything was written.
pub open spec fn drain_noted(step: Step, outbound_empty: bool) -> Step {
    if step.outcome is Running && step.outbound.len() == 0 {
        Step {
            transfer: TransferView {
                exchange: drained(step.transfer.exchange, outbound_empty),
                ..step.transfer
            },
            ..step
        }
    } else {
        step
    }
}

/// An exchange that goes on gets its allowance to read.
pub open spec fn allowed(step: Step, now: u64) -> Step {
    if step.outcome is Running {
        let (transfer, allowance) = allowance_refreshed(step.transfer, now);
        Step { transfer, allowance, ..step }
    } else {
        step
    }
}

/// What an event does to an exchange. While the connection is known to have failed, nothing more is
/// queued on it: the exchange is then not `armed`.
pub open spec fn event_taken(transfer: TransferView, event: EventView, armed: bool, now: u64) -> Step {
    let report = event.report;
    match event.kind {
        EventKindView::Connected => output_step(
            moved(transfer, None, now, transfer.exchange.tls is None),
            report.room,
            armed,
        ),
        EventKindView::WriteProgress => output_step(
            moved(transfer, report.tls, now, false),
            report.room,
            armed,
        ),
        EventKindView::WriteDrained => drain_noted(
            output_step(moved(transfer, report.tls, now, false), report.room, armed),
            report.outbound_empty,
        ),
        EventKindView::Data { plaintext, peer_closed } => {
            let stepped = data_handled(
                transfer,
                plaintext,
                report.tls,
                peer_closed,
                now,
                if armed {
                    Some(report.room)
                } else {
                    None
                },
            );
            allowed(
                Step {
                    transfer: stepped.transfer,
                    outcome: stepped.outcome,
                    outbound: stepped.outbound,
                    allowance: None,
                },
                now,
            )
        },
        EventKindView::PeerClosed => {
            let (next, outcome) = close_handled(transfer);
            allowed(
                Step { transfer: next, outcome, outbound: Seq::empty(), allowance: None },
                now,
            )
        },
        EventKindView::Failed(failure) => Step {
            transfer,
            outcome: OutcomeView::Failed(connection_failure(transfer.exchange, failure)),
            outbound: Seq::empty(),
            allowance: None,
        },
        EventKindView::SessionFailed(error) => Step {
            transfer,
            outcome: OutcomeView::Failed(error),
            outbound: Seq::empty(),
            allowance: None,
        },
        EventKindView::DeadlineExpired => Step {
            transfer,
            outcome: deadline_handled(transfer.exchange, now),
            outbound: Seq::empty(),
            allowance: None,
        },
    }
}

/// An exchange whose response is delivered goes on without an event: more output may fit, and more
/// of the response may be taken.
pub open spec fn resumed(transfer: TransferView, report: SocketReport, now: u64) -> Step {
    match transfer.response {
        TransferResponseView::Buffered(_) => Step {
            transfer,
            outcome: OutcomeView::Running,
            outbound: Seq::empty(),
            allowance: None,
        },
        TransferResponseView::Streaming(stream) => {
            let pumped = output_step(
                TransferView { exchange: tls_adopted(transfer.exchange, report.tls), ..transfer },
                report.room,
                true,
            );
            if pumped.outcome is Running {
                let (next, outcome) = stream_received(
                    drained(
                        pumped.transfer.exchange,
                        report.outbound_empty && pumped.outbound.len() == 0,
                    ),
                    stream,
                    Seq::empty(),
                    false,
                );
                allowed(Step { transfer: next, outcome, ..pumped }, now)
            } else {
                pumped
            }
        },
    }
}

/// Bytes that go out, with what became of the exchange.
#[derive(Debug)]
pub struct StepResult {
    pub outcome: TransferOutcome,
    pub outbound: Vec<u8>,
    pub allowance: Option<usize>,
}

/// An allowance as a number.
pub open spec fn allowance_view(allowance: Option<usize>) -> Option<nat> {
    match allowance {
        Some(bytes) => Some(bytes as nat),
        None => None,
    }
}

impl StepResult {
    /// Whether this is what became of an exchange, with the state in which it was left.
    pub open spec fn is_step(&self, transfer: TransferView, step: Step) -> bool {
        step == (Step {
            transfer,
            outcome: self.outcome@,
            outbound: self.outbound@,
            allowance: allowance_view(self.allowance),
        })
    }

    fn plain(outcome: TransferOutcome) -> (result: Self)
        ensures
            result.outcome == outcome,
            result.outbound@ == Seq::<u8>::empty(),
            result.allowance is None,
    {
        let result = StepResult { outcome, outbound: Vec::new(), allowance: None };
        assert(result.outbound@ =~= Seq::<u8>::empty());
        result
    }
}

/// Whether an exchange is still the same one: for the same request, on a connection to the same
/// origin, with a response that is received in the same way; a sink that was there is there.
pub open spec fn same_exchange(before: TransferView, after: TransferView) -> bool {
    &&& after.exchange.key == before.exchange.key
    &&& after.exchange.request_id == before.exchange.request_id
    &&& after.response is Streaming <==> before.response is Streaming
    &&& has_sink(before) ==> has_sink(after)
}

/// Whether a response that is delivered has a sink.
pub open spec fn has_sink(transfer: TransferView) -> bool {
    transfer.response matches TransferResponseView::Streaming(stream)
        ==> stream.decoder.response is Some
}

proof fn lemma_drain_keeps_exchange(exchange: ExchangeView, stream: StreamTransferView)
    ensures
        stream_drained(exchange, stream).0.key == exchange.key,
        stream_drained(exchange, stream).0.request_id == exchange.request_id,
        stream.decoder.response is Some ==> stream_drained(
            exchange,
            stream,
        ).1.decoder.response is Some,
    decreases stream.plaintext.len(),
{
    lemma_drain_step_keeps_exchange(exchange, stream);
    let step = drain_step(exchange, stream);
    if step.end is None && step.stream.plaintext.len() < stream.plaintext.len() {
        lemma_drain_keeps_exchange(step.exchange, step.stream);
    }
}

proof fn lemma_drain_step_keeps_exchange(exchange: ExchangeView, stream: StreamTransferView)
    ensures
        drain_step(exchange, stream).exchange.key == exchange.key,
        drain_step(exchange, stream).exchange.request_id == exchange.request_id,
        stream.decoder.response is Some ==> drain_step(
            exchange,
            stream,
        ).stream.decoder.response is Some,
{
    reveal(progress_taken);
    reveal(head_offered);
    reveal(stream_ended);
    reveal(crate::stream_decoder::head_decided);
    reveal(crate::stream_decoder::stream_eof);
    if stream.decoder.response is Some {
        crate::transfer::lemma_sink_stays(stream.decoder, stream.plaintext);
    }
}

proof fn lemma_arrival_keeps_exchange(
    exchange: ExchangeView,
    tls: Option<TlsPhase>,
    now: u64,
    capacity: Option<usize>,
)
    ensures
        arrival_noted(exchange, tls, now, capacity).0.key == exchange.key,
        arrival_noted(exchange, tls, now, capacity).0.request_id == exchange.request_id,
{
    reveal(arrival_noted);
}

proof fn lemma_stream_keeps_exchange(
    exchange: ExchangeView,
    stream: StreamTransferView,
    plaintext: Seq<u8>,
    peer_closed: bool,
)
    ensures
        same_exchange(
            TransferView { exchange, response: TransferResponseView::Streaming(stream) },
            stream_received(exchange, stream, plaintext, peer_closed).0,
        ),
{
    reveal(stream_received);
    lemma_drain_keeps_exchange(
        exchange,
        StreamTransferView {
            plaintext: stream.plaintext + plaintext,
            peer_closed: stream.peer_closed || peer_closed,
            ..stream
        },
    );
}

proof fn lemma_buffer_keeps_exchange(
    exchange: ExchangeView,
    decoder: crate::decoder::DecoderView,
    plaintext: Seq<u8>,
    peer_closed: bool,
)
    ensures
        same_exchange(
            TransferView { exchange, response: TransferResponseView::Buffered(decoder) },
            buffered_received(exchange, decoder, plaintext, peer_closed).0,
        ),
        !(buffered_received(exchange, decoder, plaintext, peer_closed).1 is StreamComplete),
{
    reveal(buffered_received);
    reveal(crate::transfer::buffered_data);
}

proof fn lemma_data_keeps_exchange(
    transfer: TransferView,
    plaintext: Seq<u8>,
    tls: Option<TlsPhase>,
    peer_closed: bool,
    now: u64,
    capacity: Option<usize>,
)
    ensures
        same_exchange(
            transfer,
            data_handled(transfer, plaintext, tls, peer_closed, now, capacity).transfer,
        ),
        !(transfer.response is Streaming) ==> !(data_handled(
            transfer,
            plaintext,
            tls,
            peer_closed,
            now,
            capacity,
        ).outcome is StreamComplete),
{
    lemma_arrival_keeps_exchange(transfer.exchange, tls, now, capacity);
    let (exchange, _, _) = arrival_noted(transfer.exchange, tls, now, capacity);
    match transfer.response {
        TransferResponseView::Buffered(decoder) => {
            lemma_buffer_keeps_exchange(exchange, decoder, plaintext, peer_closed);
        },
        TransferResponseView::Streaming(stream) => {
            lemma_stream_keeps_exchange(exchange, stream, plaintext, peer_closed);
        },
    }
}

proof fn lemma_close_keeps_exchange(transfer: TransferView)
    ensures
        same_exchange(transfer, close_handled(transfer).0),
        !(transfer.response is Streaming) ==> !(close_handled(transfer).1 is StreamComplete),
{
    match transfer.response {
        TransferResponseView::Buffered(_) => {},
        TransferResponseView::Streaming(stream) => {
            lemma_stream_keeps_exchange(
                transfer.exchange,
                StreamTransferView { peer_closed: true, tls_dirty_eof: true, ..stream },
                Seq::empty(),
                false,
            );
            lemma_stream_keeps_exchange(transfer.exchange, stream, Seq::empty(), true);
        },
    }
}

/// No event makes an exchange another one.
pub proof fn lemma_event_keeps_exchange(
    transfer: TransferView,
    event: EventView,
    armed: bool,
    now: u64,
)
    ensures
        same_exchange(transfer, event_taken(transfer, event, armed, now).transfer),
        !(transfer.response is Streaming) ==> !(event_taken(
            transfer,
            event,
            armed,
            now,
        ).outcome is StreamComplete),
{
    match event.kind {
        EventKindView::Data { plaintext, peer_closed } => {
            lemma_data_keeps_exchange(
                transfer,
                plaintext,
                event.report.tls,
                peer_closed,
                now,
                if armed {
                    Some(event.report.room)
                } else {
                    None
                },
            );
        },
        EventKindView::PeerClosed => {
            lemma_close_keeps_exchange(transfer);
        },
        _ => {},
    }
}

/// Going on without an event does not make an exchange another one either.
pub proof fn lemma_resume_keeps_exchange(transfer: TransferView, report: SocketReport, now: u64)
    ensures
        same_exchange(transfer, resumed(transfer, report, now).transfer),
        !(transfer.response is Streaming) ==> !(resumed(
            transfer,
            report,
            now,
        ).outcome is StreamComplete),
{
    if let TransferResponseView::Streaming(stream) = transfer.response {
        let pumped = output_step(
            TransferView { exchange: tls_adopted(transfer.exchange, report.tls), ..transfer },
            report.room,
            true,
        );
        lemma_stream_keeps_exchange(
            drained(
                pumped.transfer.exchange,
                report.outbound_empty && pumped.outbound.len() == 0,
            ),
            stream,
            Seq::empty(),
            false,
        );
    }
}

impl HttpTransfer {
    fn pump_output(&mut self, room: usize, armed: bool) -> (result: StepResult)
        requires
            old(self).wf(),
        ensures
            final(self).wf(),
            result.is_step(final(self)@, output_step(old(self)@, room, armed)),
            result.allowance is None,
            result.outcome is Running || result.outcome is Failed,
    {
        if !armed {
            return StepResult::plain(TransferOutcome::Running);
        }
        let (outbound, failure) = self.exchange.pump_request_output(room);
        let outcome = match failure {
            Some(error) => TransferOutcome::Failed(error),
            None => TransferOutcome::Running,
        };
        StepResult { outcome, outbound, allowance: None }
    }

    fn allow(&mut self, result: StepResult, now: u64) -> (next: StepResult)
        requires
            result.outcome is Running ==> old(self).wf(),
            result.allowance is None,
            transfer_sink_ok(old(self)@),
        ensures
            next.is_step(
                final(self)@,
                allowed(
                    Step {
                        transfer: old(self)@,
                        outcome: result.outcome@,
                        outbound: result.outbound@,
                        allowance: None,
                    },
                    now,
                ),
            ),
            next.outcome == result.outcome,
            next.outcome is Running ==> final(self).wf(),
            transfer_sink_ok(final(self)@),
    {
        match &result.outcome {
            TransferOutcome::Running => {},
            _ => {
                return result;
            },
        }
        let allowance = self.refresh_stream_allowance(now);
        StepResult { outcome: result.outcome, outbound: result.outbound, allowance }
    }

    fn take_move(&mut self, tls: Option<TlsPhase>, now: u64, connected: bool)
        requires
            old(self).wf(),
        ensures
            final(self).wf(),
            final(self)@ == moved(old(self)@, tls, now, connected),
    {
        self.exchange.adopt_tls(tls);
        self.exchange.note_progress(now, connected);
    }

    fn take_write(
        &mut self,
        report: SocketReport,
        armed: bool,
        now: u64,
        all: bool,
    ) -> (result: StepResult)
        requires
            old(self).wf(),
        ensures
            final(self).wf(),
            all ==> result.is_step(
                final(self)@,
                drain_noted(
                    output_step(moved(old(self)@, report.tls, now, false), report.room, armed),
                    report.outbound_empty,
                ),
            ),
            !all ==> result.is_step(
                final(self)@,
                output_step(moved(old(self)@, report.tls, now, false), report.room, armed),
            ),
    {
        self.take_move(report.tls, now, false);
        let result = self.pump_output(report.room, armed);
        if all && result.outbound.len() == 0 {
            match &result.outcome {
                TransferOutcome::Running => {
                    self.exchange.refresh_request_write_drained(report.outbound_empty);
                },
                _ => {},
            }
        }
        result
    }

    /// Takes an event.
    pub fn take_event(&mut self, event: NativeEvent, armed: bool, now: u64) -> (result: StepResult)
        requires
            old(self).wf(),
        ensures
            result.is_step(final(self)@, event_taken(old(self)@, event@, armed, now)),
            result.outcome is Running ==> final(self).wf(),
            transfer_sink_ok(final(self)@),
            final(self)@.exchange.key == old(self)@.exchange.key,
    {
        let report = event.report;
        proof {
            lemma_event_keeps_exchange(self@, event@, armed, now);
            lemma_ok_has_sink(self@);
        }
        match event.kind {
            EventKind::Connected => {
                self.handle_connected(now);
                let result = self.pump_output(report.room, armed);
                proof {
                    lemma_ok_has_sink(self@);
                }
                result
            },
            EventKind::WriteProgress => {
                let result = self.take_write(report, armed, now, false);
                proof {
                    lemma_ok_has_sink(self@);
                }
                result
            },
            EventKind::WriteDrained => {
                let result = self.take_write(report, armed, now, true);
                proof {
                    lemma_ok_has_sink(self@);
                }
                result
            },
            EventKind::Data { plaintext, peer_closed } => {
                let received = Received { plaintext, tls: report.tls, peer_closed };
                let capacity = if armed {
                    Some(report.room)
                } else {
                    None
                };
                let (outcome, outbound) = self.handle_data(received, now, capacity);
                self.allow(StepResult { outcome, outbound, allowance: None }, now)
            },
            EventKind::PeerClosed => {
                let outcome = self.handle_peer_closed();
                self.allow(StepResult::plain(outcome), now)
            },
            EventKind::Failed(failure) => StepResult::plain(
                TransferOutcome::Failed(self.fail_native(&failure)),
            ),
            EventKind::SessionFailed(error) => StepResult::plain(TransferOutcome::Failed(error)),
            EventKind::DeadlineExpired => StepResult::plain(self.handle_deadline(now)),
        }
    }

    /// Goes on without an event.
    pub fn resume(&mut self, report: SocketReport, now: u64) -> (result: StepResult)
        requires
            old(self).wf(),
        ensures
            result.is_step(final(self)@, resumed(old(self)@, report, now)),
            result.outcome is Running ==> final(self).wf(),
            transfer_sink_ok(final(self)@),
            final(self)@.exchange.key == old(self)@.exchange.key,
    {
        proof {
            lemma_resume_keeps_exchange(self@, report, now);
            lemma_ok_has_sink(self@);
        }
        if !self.response.is_streaming() {
            return StepResult::plain(TransferOutcome::Running);
        }
        self.exchange.adopt_tls(report.tls);
        let pumped = self.pump_output(report.room, true);
        proof {
            lemma_ok_has_sink(self@);
        }
        match &pumped.outcome {
            TransferOutcome::Running => {},
            _ => {
                return pumped;
            },
        }
        let empty = report.outbound_empty && pumped.outbound.len() == 0;
        self.exchange.refresh_request_write_drained(empty);
        let outcome = self.resume_stream();
        self.allow(StepResult { outcome, outbound: pumped.outbound, allowance: None }, now)
    }
}

proof fn lemma_ok_has_sink(transfer: TransferView)
    requires
        transfer_ok(transfer),
    ensures
        transfer_sink_ok(transfer),
{
}

} // verus!
