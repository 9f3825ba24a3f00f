//! What holds of every exchange while it is carried: when its clocks run, what ends it, and what the
//! peer's bytes and the end of the connection make of it.

use crate::deadline::due;
use crate::decoder::{run, DecoderView, RunEnd};
use crate::exchange::{
    arrival_noted, drained, exchange_deadline, output_complete, reader_followed, upload_ended,
    ExchangeView,
};
use crate::failure::{NativeFailureKind, NativeFailureView};
use crate::step::{event_taken, resumed, EventKindView, EventView, SocketReport};
use crate::stream_decoder::socket_room;
use crate::tcp_laws::falls_due;
use crate::transfer::{
    buffered_data, buffered_received, close_handled, connection_failure, drain_step, head_offered,
    progress_taken, stream_drained, stream_received, OutcomeView, StreamTransferView,
    TransferResponseView, TransferView,
};
use crate::types::{
    limit_error, plain_error, timeout_error, tls_error, transport_error, ErrorKind, LimitKind,
    ResponseView, TimeoutKind, TlsFailure, TransportStage,
};
use vstd::prelude::*;
use vstd::string::*;

verus! {

/// The clocks of an exchange stand as they did.
pub open spec fn same_clocks(before: ExchangeView, after: ExchangeView) -> bool {
    &&& after.connected == before.connected
    &&& after.connect_deadline == before.connect_deadline
    &&& after.total_deadline == before.total_deadline
    &&& after.inactivity_timeout == before.inactivity_timeout
    &&& after.inactivity_deadline == before.inactivity_deadline
    &&& after.inactivity_paused == before.inactivity_paused
}

/// The clock on inactivity has just started; the other clocks stand as they did.
pub open spec fn restarted(before: ExchangeView, after: ExchangeView, now: u64) -> bool {
    &&& falls_due(after.inactivity_deadline, now, before.inactivity_timeout)
    &&& !after.inactivity_paused
    &&& after.inactivity_timeout == before.inactivity_timeout
    &&& after.total_deadline == before.total_deadline
    &&& after.connect_deadline == before.connect_deadline
}

proof fn lemma_drain_keeps_clocks(exchange: ExchangeView, stream: StreamTransferView)
    ensures
        same_clocks(exchange, stream_drained(exchange, stream).0),
        stream_drained(exchange, stream).0.tls == exchange.tls,
    decreases stream.plaintext.len(),
{
    reveal(progress_taken);
    reveal(head_offered);
    let step = drain_step(exchange, stream);
    if step.end is None && step.stream.plaintext.len() < stream.plaintext.len() {
        lemma_drain_keeps_clocks(step.exchange, step.stream);
    }
}

proof fn lemma_streaming_keeps_clocks(
    exchange: ExchangeView,
    stream: StreamTransferView,
    plaintext: Seq<u8>,
    peer_closed: bool,
)
    ensures
        same_clocks(
            exchange,
            stream_received(exchange, stream, plaintext, peer_closed).0.exchange,
        ),
        stream_received(exchange, stream, plaintext, peer_closed).0.exchange.tls == exchange.tls,
        stream_received(exchange, stream, plaintext, peer_closed).0.response is Streaming,
{
    reveal(stream_received);
    lemma_drain_keeps_clocks(
        exchange,
        StreamTransferView {
            plaintext: stream.plaintext + plaintext,
            peer_closed: stream.peer_closed || peer_closed,
            ..stream
        },
    );
}

/// Progress restarts the clock on inactivity: a connection that stands, output that was written, and
/// bytes that arrived for a response held in memory each set its deadline to the timeout after them.
/// The connect deadline counts no more once the connection stands, through TLS once the handshake is
/// done.
pub proof fn lemma_progress_restarts_inactivity(
    transfer: TransferView,
    event: EventView,
    armed: bool,
    now: u64,
)
    requires
        event.kind is Connected || event.kind is WriteProgress || event.kind is WriteDrained || (
        event.kind is Data && transfer.response is Buffered),
    ensures
        ({
            let before = transfer.exchange;
            let after = event_taken(transfer, event, armed, now).transfer.exchange;
            &&& restarted(before, after, now)
            &&& event.kind is Connected ==> after.connected == (before.connected || before.tls is None)
            &&& event.kind is WriteProgress || event.kind is WriteDrained ==> after.connected
                == before.connected
            &&& event.kind is Data ==> after.connected == (before.connected || (before.tls is Some
                && event.report.tls is Some && !event.report.tls->0.handshaking))
        }),
{
    reveal(arrival_noted);
    reveal(buffered_received);
}

/// A reader's queue is full: nothing more can be delivered to it.
pub open spec fn is_full(stream: StreamTransferView) -> bool {
    &&& stream.decoder.pending_head is None
    &&& stream.decoder.output is Deliver
    &&& stream.decoder.response is Some ==> stream.decoder.response->0.queue.len()
        >= stream.decoder.response->0.capacity
}

/// A reader's queue holds no more than it may.
pub open spec fn keeps_to_capacity(stream: StreamTransferView) -> bool {
    stream.decoder.response is Some ==> stream.decoder.response->0.queue.len()
        <= stream.decoder.response->0.capacity
}

/// Bytes that arrive for a response that is delivered piece by piece restart the clock on inactivity
/// while the reader keeps up, and stop it while the reader's queue is full.
pub proof fn lemma_streamed_arrival_restarts_inactivity(
    transfer: TransferView,
    event: EventView,
    armed: bool,
    now: u64,
)
    requires
        event.kind is Data,
        transfer.response is Streaming,
        transfer.exchange.tls is Some || transfer.response->Streaming_0.plaintext.len() == 0,
    ensures
        ({
            let before = transfer.exchange;
            let step = event_taken(transfer, event, armed, now);
            let after = step.transfer.exchange;
            let stream = step.transfer.response->Streaming_0;
            step.outcome is Running && keeps_to_capacity(stream) ==> {
                &&& step.transfer.response is Streaming
                &&& !is_full(stream) && stream.decoder.pending_head is None ==> restarted(
                    before,
                    after,
                    now,
                )
                &&& is_full(stream) ==> after.inactivity_paused && after.inactivity_deadline is None
                &&& after.total_deadline == before.total_deadline
                &&& after.connect_deadline == before.connect_deadline
            }
        }),
{
    let stepped = lemma_streamed_data(transfer, event, armed, now);
    let stream = stepped.response->Streaming_0;
}

/// What may be read from the socket, once bytes arrived for a response that is delivered piece by
/// piece, is the room in the reader's queue; nothing while cleartext waits for room; and a fixed
/// amount before the head and behind a redirect.
pub proof fn lemma_reading_is_bounded_by_the_queue(
    transfer: TransferView,
    event: EventView,
    armed: bool,
    now: u64,
)
    requires
        event.kind is Data,
        transfer.response is Streaming,
        transfer.exchange.tls is Some || transfer.response->Streaming_0.plaintext.len() == 0,
    ensures
        ({
            let step = event_taken(transfer, event, armed, now);
            let stream = step.transfer.response->Streaming_0;
            let held = transfer.exchange.tls is None && stream.plaintext.len() > 0;
            step.outcome is Running && keeps_to_capacity(stream) && stream.decoder.pending_head is None
                ==> {
                &&& held ==> step.allowance == Some(0nat)
                &&& !held && !(stream.decoder.output is Deliver) ==> step.allowance == Some(16384nat)
                &&& !held && stream.decoder.output is Deliver && stream.decoder.response is Some
                    ==> step.allowance == Some(
                    (stream.decoder.response->0.capacity - stream.decoder.response->0.queue.len()) as nat,
                )
            }
        }),
{
    let stepped = lemma_streamed_data(transfer, event, armed, now);
}

proof fn lemma_streamed_data(transfer: TransferView, event: EventView, armed: bool, now: u64) -> (
    stepped: TransferView)
    requires
        event.kind is Data,
        transfer.response is Streaming,
        transfer.exchange.tls is Some || transfer.response->Streaming_0.plaintext.len() == 0,
    ensures
        ({
            let before = transfer.exchange;
            let step = event_taken(transfer, event, armed, now);
            let after = stepped.exchange;
            &&& restarted(before, after, now)
            &&& before.connected ==> after.connected
            &&& step.transfer.response == stepped.response
            &&& stepped.response is Streaming
            &&& step.outcome is Running ==> (step.transfer, step.allowance)
                == crate::transfer::allowance_refreshed(stepped, now)
            &&& !(step.outcome is Running) ==> step.transfer == stepped
            &&& after.tls is Some <==> before.tls is Some
        }),
{
    reveal(arrival_noted);
    let (exchange, outbound, failure) = arrival_noted(
        transfer.exchange,
        event.report.tls,
        now,
        if armed {
            Some(event.report.room)
        } else {
            None
        },
    );
    let stream = transfer.response->Streaming_0;
    let plaintext = event.kind->Data_plaintext;
    let peer_closed = event.kind->Data_peer_closed;
    lemma_streaming_keeps_clocks(exchange, stream, plaintext, peer_closed);
    if failure is Some {
        TransferView { exchange, ..transfer }
    } else {
        stream_received(exchange, stream, plaintext, peer_closed).0
    }
}

/// A deadline ends an exchange exactly when it has passed: the total one at any time, the connect one
/// until the connection stands, the one on inactivity unless it is paused. The error says which, the
/// total one before the connect one and that before the one on inactivity.
pub proof fn lemma_only_a_passed_deadline_ends_an_exchange(
    transfer: TransferView,
    event: EventView,
    armed: bool,
    now: u64,
)
    requires
        event.kind is DeadlineExpired,
        transfer.exchange.inactivity_paused ==> transfer.exchange.inactivity_deadline is None,
    ensures
        ({
            let exchange = transfer.exchange;
            let step = event_taken(transfer, event, armed, now);
            let total = exchange.total_deadline is Some && exchange.total_deadline->0 <= now;
            let connect = !exchange.connected && exchange.connect_deadline is Some
                && exchange.connect_deadline->0 <= now;
            let inactivity = exchange.inactivity_deadline is Some && exchange.inactivity_deadline->0
                <= now;
            &&& step.transfer == transfer
            &&& total ==> step.outcome == OutcomeView::Failed(
                timeout_error(
                    TimeoutKind::Total,
                    "the native HTTP total request timeout expired"@,
                ),
            )
            &&& !total && connect ==> step.outcome == OutcomeView::Failed(
                timeout_error(
                    TimeoutKind::Connect,
                    "the native HTTP connection-establishment timeout expired"@,
                ),
            )
            &&& !total && !connect && inactivity ==> step.outcome == OutcomeView::Failed(
                timeout_error(
                    TimeoutKind::Inactivity,
                    "the native HTTP inactivity timeout expired"@,
                ),
            )
            &&& !total && !connect && !inactivity ==> step.outcome is Running
        }),
{
}

/// The deadline that is set for an exchange has passed exactly when one of its clocks has run out.
pub proof fn lemma_the_set_deadline_is_the_next(exchange: ExchangeView, now: u64)
    ensures
        (exchange_deadline(exchange) is Some && exchange_deadline(exchange)->0 <= now) <==> ((
        exchange.total_deadline is Some && exchange.total_deadline->0 <= now) || (
        !exchange.connected && exchange.connect_deadline is Some && exchange.connect_deadline->0
            <= now) || (!exchange.inactivity_paused && exchange.inactivity_deadline is Some
            && exchange.inactivity_deadline->0 <= now)),
{
}

/// Something that happened during an exchange, and when.
pub enum Moment {
    Event { event: EventView, armed: bool, now: u64 },
    Look { report: SocketReport, now: u64 },
}

/// When it happened.
pub open spec fn moment_time(moment: Moment) -> u64 {
    match moment {
        Moment::Event { now, .. } => now,
        Moment::Look { now, .. } => now,
    }
}

/// The transfer after one more thing happened.
pub open spec fn moment_lived(transfer: TransferView, moment: Moment) -> TransferView {
    match moment {
        Moment::Event { event, armed, now } => event_taken(transfer, event, armed, now).transfer,
        Moment::Look { report, now } => resumed(transfer, report, now).transfer,
    }
}

/// The transfer after one thing after another happened.
pub open spec fn exchange_lived(transfer: TransferView, moments: Seq<Moment>) -> TransferView
    decreases moments.len(),
{
    if moments.len() == 0 {
        transfer
    } else {
        moment_lived(exchange_lived(transfer, moments.drop_last()), moments.last())
    }
}

spec fn idles_until(exchange: ExchangeView, timeout: u64, until: int) -> bool {
    &&& exchange.inactivity_timeout == Some(timeout)
    &&& exchange.inactivity_deadline matches Some(at) ==> at >= until
}

/// The clock on inactivity stands as it did, stopped, or has just started; the other clocks stand as
/// they did.
spec fn moves_on(before: ExchangeView, after: ExchangeView, now: u64) -> bool {
    &&& after.inactivity_timeout == before.inactivity_timeout
    &&& after.total_deadline == before.total_deadline
    &&& after.connect_deadline == before.connect_deadline
    &&& before.connected ==> after.connected
    &&& after.inactivity_deadline == before.inactivity_deadline || after.inactivity_deadline is None
        || after.inactivity_deadline == due(now, before.inactivity_timeout)
}

proof fn lemma_allowance_moves_on(transfer: TransferView, now: u64)
    ensures
        moves_on(
            transfer.exchange,
            crate::transfer::allowance_refreshed(transfer, now).0.exchange,
            now,
        ),
{
}

proof fn lemma_close_moves_on(transfer: TransferView, event: EventView, armed: bool, now: u64)
    requires
        event.kind is PeerClosed,
    ensures
        moves_on(transfer.exchange, event_taken(transfer, event, armed, now).transfer.exchange, now),
{
    if let TransferResponseView::Streaming(stream) = transfer.response {
        lemma_streaming_keeps_clocks(
            transfer.exchange,
            StreamTransferView { peer_closed: true, tls_dirty_eof: true, ..stream },
            Seq::empty(),
            false,
        );
        lemma_streaming_keeps_clocks(transfer.exchange, stream, Seq::empty(), true);
    }
    lemma_allowance_moves_on(close_handled(transfer).0, now);
}

proof fn lemma_event_moves_on(transfer: TransferView, event: EventView, armed: bool, now: u64)
    ensures
        moves_on(transfer.exchange, event_taken(transfer, event, armed, now).transfer.exchange, now),
{
    if event.kind is PeerClosed {
        lemma_close_moves_on(transfer, event, armed, now);
    } else if event.kind is Data && transfer.response is Streaming {
        if transfer.exchange.tls is Some || transfer.response->Streaming_0.plaintext.len() == 0 {
            let stepped = lemma_streamed_data(transfer, event, armed, now);
            lemma_allowance_moves_on(stepped, now);
        }
    } else if event.kind is Connected || event.kind is WriteProgress || event.kind is WriteDrained
        || event.kind is Data {
        lemma_progress_restarts_inactivity(transfer, event, armed, now);
    }
}

proof fn lemma_look_moves_on(transfer: TransferView, report: SocketReport, now: u64)
    ensures
        moves_on(transfer.exchange, resumed(transfer, report, now).transfer.exchange, now),
{
    if let TransferResponseView::Streaming(stream) = transfer.response {
        let pumped = crate::step::output_step(
            TransferView {
                exchange: crate::exchange::tls_adopted(transfer.exchange, report.tls),
                ..transfer
            },
            report.room,
            true,
        );
        let written = drained(
            pumped.transfer.exchange,
            report.outbound_empty && pumped.outbound.len() == 0,
        );
        assert(same_clocks(transfer.exchange, written));
        lemma_streaming_keeps_clocks(written, stream, Seq::empty(), false);
        lemma_allowance_moves_on(stream_received(written, stream, Seq::empty(), false).0, now);
    }
}

proof fn lemma_moment_moves_the_clock(transfer: TransferView, moment: Moment)
    ensures
        moves_on(
            transfer.exchange,
            moment_lived(transfer, moment).exchange,
            moment_time(moment),
        ),
{
    match moment {
        Moment::Event { event, armed, now } => {
            lemma_event_moves_on(transfer, event, armed, now);
        },
        Moment::Look { report, now } => {
            lemma_look_moves_on(transfer, report, now);
        },
    }
}

proof fn lemma_lived_clock(transfer: TransferView, moments: Seq<Moment>, timeout: u64, since: u64)
    requires
        idles_until(transfer.exchange, timeout, since + timeout),
        forall|i: int| 0 <= i < moments.len() ==> moment_time(#[trigger] moments[i]) >= since,
    ensures
        idles_until(exchange_lived(transfer, moments).exchange, timeout, since + timeout),
    decreases moments.len(),
{
    if moments.len() > 0 {
        let earlier = moments.drop_last();
        assert(moments.last() == moments[moments.len() - 1]);
        assert forall|i: int| 0 <= i < earlier.len() implies moment_time(#[trigger] earlier[i])
            >= since by {
            assert(earlier[i] == moments[i]);
        }
        lemma_lived_clock(transfer, earlier, timeout, since);
        lemma_moment_moves_the_clock(exchange_lived(transfer, earlier), moments.last());
    }
}

/// Progress buys the whole timeout: after it, whatever else happens, the exchange does not fail for
/// inactivity until the timeout has run from then.
pub proof fn lemma_progress_buys_the_timeout(
    transfer: TransferView,
    progress: EventView,
    armed: bool,
    since: u64,
    moments: Seq<Moment>,
    expiry: EventView,
    now: u64,
    timeout: u64,
)
    requires
        progress.kind is Connected || progress.kind is WriteProgress || progress.kind is WriteDrained
            || (progress.kind is Data && transfer.response is Buffered),
        transfer.exchange.inactivity_timeout == Some(timeout),
        forall|i: int| 0 <= i < moments.len() ==> moment_time(#[trigger] moments[i]) >= since,
        expiry.kind is DeadlineExpired,
    ensures
        ({
            let moved = event_taken(transfer, progress, armed, since).transfer;
            let later = exchange_lived(moved, moments);
            event_taken(later, expiry, armed, now).outcome == OutcomeView::Failed(
                timeout_error(
                    TimeoutKind::Inactivity,
                    "the native HTTP inactivity timeout expired"@,
                ),
            ) ==> now >= since + timeout
        }),
{
    lemma_progress_restarts_inactivity(transfer, progress, armed, since);
    let moved = event_taken(transfer, progress, armed, since).transfer;
    lemma_lived_clock(moved, moments, timeout, since);
}

/// The total deadline is never put off: whatever happens, an exchange keeps the one that it started
/// with, and its connect deadline too.
pub proof fn lemma_total_deadline_is_never_put_off(transfer: TransferView, moments: Seq<Moment>)
    ensures
        exchange_lived(transfer, moments).exchange.total_deadline
            == transfer.exchange.total_deadline,
        exchange_lived(transfer, moments).exchange.connect_deadline
            == transfer.exchange.connect_deadline,
        transfer.exchange.connected ==> exchange_lived(transfer, moments).exchange.connected,
    decreases moments.len(),
{
    if moments.len() > 0 {
        lemma_total_deadline_is_never_put_off(transfer, moments.drop_last());
        lemma_moment_moves_the_clock(exchange_lived(transfer, moments.drop_last()), moments.last());
    }
}

/// The request counts as written once the connection stands, the upload is out, TLS has encrypted all
/// of it and the send queue is empty; and it stays so.
pub proof fn lemma_requests_are_written_when_nothing_is_left(
    exchange: ExchangeView,
    outbound_empty: bool,
)
    ensures
        drained(exchange, outbound_empty).request_write_drained <==> exchange.request_write_drained
            || (exchange.connected && outbound_empty && !exchange.upload_aborted && (
        exchange.upload is None || (exchange.upload->0.producer_finished
            && exchange.upload->0.pending_wire is None)) && (exchange.tls is None
            || exchange.tls->0.request_encrypted)),
        output_complete(exchange) <==> !exchange.upload_aborted && (exchange.upload is None || (
        exchange.upload->0.producer_finished && exchange.upload->0.pending_wire is None)) && (
        exchange.tls is None || exchange.tls->0.request_encrypted),
        drained(exchange, outbound_empty) == (ExchangeView {
            request_write_drained: drained(exchange, outbound_empty).request_write_drained,
            ..exchange
        }),
{
}

/// A final head ends the upload; it counts as given up unless all of it had been written.
pub proof fn lemma_final_heads_end_the_upload(exchange: ExchangeView)
    ensures
        upload_ended(exchange).upload is None,
        exchange.upload is None ==> upload_ended(exchange) == exchange,
        exchange.upload is Some ==> (upload_ended(exchange).upload_aborted <==> exchange.upload_aborted
            || !exchange.upload->0.producer_finished || exchange.upload->0.pending_wire is Some
            || !exchange.request_write_drained),
{
}

/// What a failure of the socket layer is reported as: a TLS failure during the handshake; a failure
/// to send, where a body was on its way and nothing had come back; else as what it was.
pub proof fn lemma_failures_are_told_apart(exchange: ExchangeView, failure: NativeFailureView)
    ensures
        ({
            let error = connection_failure(exchange, failure);
            let handshaking = exchange.tls is Some && exchange.tls->0.handshaking;
            let unanswered = failure.kind is Read && exchange.body_bearing
                && !exchange.response_started;
            &&& handshaking ==> error == tls_error(
                TlsFailure::Io,
                "the connection failed during the TLS handshake: "@ + failure.message,
            )
            &&& !handshaking && unanswered ==> error == transport_error(
                TransportStage::Send,
                "the connection failed during a body-bearing exchange before any response bytes arrived"@,
            )
            &&& !handshaking && !unanswered ==> error == match failure.kind {
                NativeFailureKind::Connect => transport_error(
                    TransportStage::Connect,
                    failure.message,
                ),
                NativeFailureKind::Read => transport_error(TransportStage::Receive, failure.message),
                NativeFailureKind::Write => transport_error(TransportStage::Send, failure.message),
                NativeFailureKind::OutboundQueueFull => limit_error(
                    LimitKind::RequestBodyBytes,
                    "the serialized native request exceeded its bounded send queue"@,
                ),
                NativeFailureKind::ReceiveLimit => limit_error(
                    LimitKind::ResponseBodyBytes,
                    "the native response exceeded its bounded wire allowance"@,
                ),
                NativeFailureKind::Internal => plain_error(ErrorKind::Internal, failure.message),
            }
        }),
{
}

/// The peer's close ends a response in the clear: one that has no other end is complete, any other is
/// cut short and fails. Through TLS a close without notice never completes a response.
pub proof fn lemma_closing_completes_only_open_bodies(transfer: TransferView, decoder: DecoderView)
    requires
        transfer.response == TransferResponseView::Buffered(decoder),
    ensures
        transfer.exchange.tls is None && decoder.frame.state is CloseDelimited ==> close_handled(
            transfer,
        ).1 == OutcomeView::Finished(
            ResponseView {
                status: decoder.status->0,
                headers: decoder.headers,
                body: decoder.body,
            },
        ),
        transfer.exchange.tls is None && !(decoder.frame.state is CloseDelimited) ==> close_handled(
            transfer,
        ).1 is Failed,
        transfer.exchange.tls is Some ==> close_handled(transfer).1 is Failed,
        transfer.exchange.tls is None && decoder.frame.state is Head ==> close_handled(transfer).1
            == OutcomeView::Failed(
            transport_error(
                TransportStage::Receive,
                "the peer closed before a complete HTTP response head arrived"@,
            ),
        ),
        transfer.exchange.tls is None && decoder.frame.state is Fixed ==> close_handled(transfer).1
            == OutcomeView::Failed(
            transport_error(
                TransportStage::Receive,
                "the peer closed before the Content-Length body completed"@,
            ),
        ),
{
}

/// Bytes complete a response only where they end with it; what comes behind it is a violation. Until
/// then the exchange goes on.
pub proof fn lemma_bytes_behind_a_response_are_refused(decoder: DecoderView, plaintext: Seq<u8>)
    ensures
        run(decoder, plaintext).1 matches RunEnd::Done { response, consumed } ==> {
            &&& consumed == plaintext.len() ==> buffered_data(decoder, plaintext, false).1 == (
            OutcomeView::Completed {
                response,
                permits_reuse: run(decoder, plaintext).0.frame.permits_reuse,
                peer_closed: false,
            })
            &&& consumed != plaintext.len() ==> buffered_data(decoder, plaintext, false).1
                == OutcomeView::Failed(
                transport_error(
                    TransportStage::Http,
                    "the peer sent bytes after the completed HTTP response"@,
                ),
            )
        },
        run(decoder, plaintext).1 is More ==> buffered_data(decoder, plaintext, false).1 is Running,
        run(decoder, plaintext).1 matches RunEnd::Failed(error) ==> buffered_data(
            decoder,
            plaintext,
            false,
        ).1 == OutcomeView::Failed(error),
{
    reveal(buffered_data);
}

/// What may be read from the socket for a response that is delivered piece by piece.
pub proof fn lemma_reading_waits_for_the_reader(stream: StreamTransferView)
    ensures
        stream.decoder.pending_head is Some ==> socket_room(stream.decoder) == 0,
        stream.decoder.pending_head is None && !(stream.decoder.output is Deliver) ==> socket_room(
            stream.decoder,
        ) == 16384,
        stream.decoder.pending_head is None && stream.decoder.output is Deliver ==> (
        stream.decoder.response matches Some(sink) ==> (sink.queue.len() <= sink.capacity
            ==> socket_room(stream.decoder) == sink.capacity - sink.queue.len())),
{
}

/// That output was written is noted only with the last of it: once the connection stands, nothing more
/// is to be sent, and the send queue is empty.
pub proof fn lemma_drained_output_is_noted(
    transfer: TransferView,
    event: EventView,
    armed: bool,
    now: u64,
)
    ensures
        event.kind is WriteProgress || event.kind is Connected ==> event_taken(
            transfer,
            event,
            armed,
            now,
        ).transfer.exchange.request_write_drained == transfer.exchange.request_write_drained,
        event.kind is WriteDrained ==> ({
            let step = event_taken(transfer, event, armed, now);
            let after = step.transfer.exchange;
            after.request_write_drained <==> transfer.exchange.request_write_drained || (
            step.outcome is Running && step.outbound.len() == 0 && after.connected
                && event.report.outbound_empty && !after.upload_aborted && (after.upload is None || (
            after.upload->0.producer_finished && after.upload->0.pending_wire is None)) && (
            after.tls is None || after.tls->0.request_encrypted))
        }),
{
}

/// A response held in memory that ends with its connection, through TLS with due notice, is complete
/// where its body has no other end; anything else was cut short.
pub proof fn lemma_noticed_closes_complete_open_bodies(decoder: DecoderView, plaintext: Seq<u8>)
    ensures
        run(decoder, plaintext).1 is More ==> {
            let next = run(decoder, plaintext).0;
            &&& next.frame.state is CloseDelimited ==> buffered_data(decoder, plaintext, true).1
                == OutcomeView::Finished(
                ResponseView { status: next.status->0, headers: next.headers, body: next.body },
            )
            &&& !(next.frame.state is CloseDelimited) ==> buffered_data(
                decoder,
                plaintext,
                true,
            ).1 is Failed
        },
        run(decoder, plaintext).1 matches RunEnd::Done { response, consumed } ==> (consumed
            == plaintext.len() ==> buffered_data(decoder, plaintext, true).1 == (
        OutcomeView::Completed {
            response,
            permits_reuse: run(decoder, plaintext).0.frame.permits_reuse,
            peer_closed: true,
        })),
{
    reveal(buffered_data);
}

/// An exchange on which bytes have arrived counts as answered.
pub proof fn lemma_arrived_bytes_are_an_answer(
    transfer: TransferView,
    event: EventView,
    plaintext: Seq<u8>,
    peer_closed: bool,
    armed: bool,
    now: u64,
)
    requires
        event.kind == (EventKindView::Data { plaintext, peer_closed }),
        transfer.response is Buffered,
        transfer.exchange.upload is None,
    ensures
        event_taken(transfer, event, armed, now).transfer.exchange.response_started
            == (transfer.exchange.response_started || plaintext.len() > 0),
{
    reveal(arrival_noted);
    reveal(buffered_received);
}

/// The clock on inactivity starts anew when the reader lets delivery go on, and stands where nothing
/// about the reader changed.
pub proof fn lemma_readers_restart_inactivity(exchange: ExchangeView, now: u64)
    ensures
        exchange.inactivity_paused ==> restarted(
            exchange,
            reader_followed(exchange, false, now),
            now,
        ),
        !exchange.inactivity_paused ==> reader_followed(exchange, false, now) == exchange,
        exchange.inactivity_paused ==> reader_followed(exchange, true, now) == exchange,
        !exchange.inactivity_paused ==> reader_followed(exchange, true, now).inactivity_paused
            && reader_followed(exchange, true, now).inactivity_deadline is None,
{
}

} // verus!
