//! What holds of every streamed body on its way out: all of it leaves, in order, with and without TLS.

use crate::chunk::hex_text;
use crate::exchange::{
    arrival_noted, lemma_upload_work_decreases, output_pumped, pumped_clear, upload_work,
    ExchangeView,
};
use crate::pool::TlsPhase;
use crate::step::{event_taken, resumed, EventView, SocketReport};
use crate::transfer::{buffered_received, OutcomeView, TransferView};
use crate::types::UploadFraming;
use crate::upload::{sent_next, NativeUploadView, UploadEndView, UploadWireView};
use vstd::prelude::*;

verus! {

/// The bytes that a chunk of a body is sent as: as it is where the length was announced, else behind
/// its size in hexadecimal digits and before a line end.
pub open spec fn piece(framing: UploadFraming, chunk: Seq<u8>) -> Seq<u8> {
    match framing {
        UploadFraming::Fixed(_) => chunk,
        UploadFraming::Chunked => hex_text(chunk.len()) + seq![0x0du8, 0x0a] + chunk
            + seq![0x0du8, 0x0a],
    }
}

/// The bytes behind the last chunk of a body.
pub open spec fn closing(framing: UploadFraming) -> Seq<u8> {
    match framing {
        UploadFraming::Fixed(_) => Seq::empty(),
        UploadFraming::Chunked => seq![0x30u8, 0x0d, 0x0a, 0x0d, 0x0a],
    }
}

/// The bytes that consecutive chunks are sent as.
pub open spec fn pieces(framing: UploadFraming, chunks: Seq<Seq<u8>>) -> Seq<u8>
    decreases chunks.len(),
{
    if chunks.len() == 0 {
        Seq::empty()
    } else {
        piece(framing, chunks[0]) + pieces(framing, chunks.skip(1))
    }
}

/// The bytes that have yet to leave: a piece in hand, the queued chunks, and the end once the producer
/// has finished.
pub open spec fn yet_to_leave(upload: NativeUploadView) -> Seq<u8> {
    let pending = match upload.pending_wire {
        Some(wire) => wire,
        None => Seq::empty(),
    };
    let queued = if upload.producer_finished {
        Seq::empty()
    } else if upload.body.end is Finished {
        pieces(upload.framing, upload.body.chunks) + closing(upload.framing)
    } else {
        pieces(upload.framing, upload.body.chunks)
    };
    pending + queued
}

/// Every piece can be addressed.
pub open spec fn is_addressable(upload: NativeUploadView) -> bool {
    forall|i: int|
        0 <= i < upload.body.chunks.len() ==> piece(
            upload.framing,
            #[trigger] upload.body.chunks[i],
        ).len() <= usize::MAX
}

/// All of a body has left.
pub open spec fn has_left(upload: NativeUploadView) -> bool {
    upload.producer_finished && upload.pending_wire is None
}

/// How many pieces have yet to leave, the end included.
pub open spec fn pieces_left(upload: NativeUploadView) -> nat {
    (if upload.pending_wire is Some {
        1nat
    } else {
        0nat
    }) + (if upload.producer_finished {
        0nat
    } else {
        upload.body.chunks.len() + 1
    })
}

proof fn lemma_next_piece(upload: NativeUploadView, room: Option<usize>)
    requires
        is_addressable(upload),
    ensures
        match sent_next(upload, room) {
            Ok((next, UploadWireView::Bytes(bytes))) => {
                &&& yet_to_leave(upload) == bytes + yet_to_leave(next)
                &&& room is Some ==> bytes.len() <= room->0
                &&& pieces_left(next) < pieces_left(upload)
                &&& is_addressable(next)
                &&& next.body.end == upload.body.end
                &&& next.framing == upload.framing
                &&& next.producer_finished ==> upload.producer_finished || upload.body.end is Finished
            },
            Ok((next, UploadWireView::Pending)) => {
                &&& yet_to_leave(upload) == yet_to_leave(next)
                &&& is_addressable(next)
                &&& next.body.end == upload.body.end
                &&& next.framing == upload.framing
                &&& next.producer_finished ==> upload.producer_finished || upload.body.end is Finished
                &&& pieces_left(next) <= pieces_left(upload)
                &&& match next.pending_wire {
                    Some(wire) => room is Some && wire.len() > room->0,
                    None => next.body.end is Open && next.body.chunks.len() == 0,
                }
            },
            Ok((next, UploadWireView::Complete)) => {
                &&& yet_to_leave(upload) == Seq::<u8>::empty()
                &&& has_left(next)
                &&& next.body.end == upload.body.end
                &&& next.framing == upload.framing
                &&& next.producer_finished ==> upload.producer_finished || upload.body.end is Finished
                &&& is_addressable(next)
                &&& pieces_left(next) == 0
            },
            Err(error) => {
                &&& upload.body.end == UploadEndView::Failed(error)
                &&& upload.body.chunks.len() == 0
                &&& upload.pending_wire is None
                &&& !upload.producer_finished
            },
        },
{
    let chunks = upload.body.chunks;
    if upload.pending_wire is None && !upload.producer_finished {
        if chunks.len() > 0 {
            assert(piece(upload.framing, chunks[0]) =~= crate::upload::framed(
                upload.framing,
                chunks[0],
            ));
            let rest = chunks.skip(1);
            assert forall|i: int| 0 <= i < rest.len() implies piece(
                upload.framing,
                #[trigger] rest[i],
            ).len() <= usize::MAX by {
                assert(rest[i] == chunks[i + 1]);
            }
            assert(piece(upload.framing, chunks[0]).len() <= usize::MAX);
            assert(pieces(upload.framing, chunks) + closing(upload.framing) =~= piece(
                upload.framing,
                chunks[0],
            ) + (pieces(upload.framing, rest) + closing(upload.framing)));
        } else {
            assert(closing(upload.framing) =~= crate::upload::terminator(upload.framing));
            assert(pieces(upload.framing, chunks) + closing(upload.framing) =~= closing(
                upload.framing,
            ));
        }
    }
    match sent_next(upload, room) {
        Ok((next, UploadWireView::Bytes(bytes))) => {
            assert(yet_to_leave(upload) =~= bytes + yet_to_leave(next));
        },
        Ok((next, _)) => {
            assert(yet_to_leave(upload) =~= yet_to_leave(next));
        },
        Err(_) => {},
    }
}

proof fn lemma_clear_pump(upload: NativeUploadView, room: nat)
    requires
        is_addressable(upload),
        room <= usize::MAX,
    ensures
        ({
            let step = pumped_clear(upload, room);
            &&& step.bytes + yet_to_leave(step.upload) == yet_to_leave(upload)
            &&& step.bytes.len() <= room
            &&& is_addressable(step.upload)
            &&& step.upload.body.end == upload.body.end
            &&& step.upload.framing == upload.framing
            &&& step.upload.producer_finished ==> upload.producer_finished
                || upload.body.end is Finished
            &&& pieces_left(step.upload) <= pieces_left(upload)
            &&& match step.failure {
                Some(error) => upload.body.end == UploadEndView::Failed(error)
                    && step.upload.body.chunks.len() == 0 && step.upload.pending_wire is None,
                None => match step.upload.pending_wire {
                    Some(wire) => step.bytes.len() + wire.len() > room,
                    None => has_left(step.upload) || (step.upload.body.end is Open
                        && step.upload.body.chunks.len() == 0),
                },
            }
        }),
    decreases upload_work(upload),
{
    lemma_next_piece(upload, Some(room as usize));
    lemma_upload_work_decreases(upload, Some(room as usize));
    let step = pumped_clear(upload, room);
    match sent_next(upload, Some(room as usize)) {
        Ok((next, UploadWireView::Bytes(bytes))) => {
            let left = (room - bytes.len()) as nat;
            lemma_clear_pump(next, left);
            let rest = pumped_clear(next, left);
            assert(step.bytes == bytes + rest.bytes);
            assert(step.bytes + yet_to_leave(step.upload) =~= bytes + (rest.bytes + yet_to_leave(
                rest.upload,
            )));
        },
        Ok((next, _)) => {
            assert(step.bytes + yet_to_leave(step.upload) =~= yet_to_leave(next));
        },
        Err(_) => {
            assert(step.bytes + yet_to_leave(step.upload) =~= yet_to_leave(upload));
        },
    }
}

/// In the clear, a body goes out as far as there is room: what is handed out is the front of what has
/// yet to leave, and it ends only where everything is out, where the producer failed, or where the
/// next piece does not fit.
pub proof fn lemma_body_leaves_in_the_clear(
    exchange: ExchangeView,
    upload: NativeUploadView,
    room: nat,
)
    requires
        exchange.upload == Some(upload),
        exchange.tls is None,
        is_addressable(upload),
        room <= usize::MAX,
    ensures
        ({
            let (next, bytes, failure) = output_pumped(exchange, room);
            let left = next.upload->0;
            &&& next == (ExchangeView { upload: Some(left), ..exchange })
            &&& bytes + yet_to_leave(left) == yet_to_leave(upload)
            &&& bytes.len() <= room
            &&& failure matches Some(error) ==> upload.body.end == UploadEndView::Failed(error)
                && yet_to_leave(left) == Seq::<u8>::empty()
            &&& failure is None ==> match left.pending_wire {
                Some(wire) => bytes.len() + wire.len() > room,
                None => has_left(left) || (left.body.end is Open && left.body.chunks.len() == 0),
            }
            &&& yet_to_leave(upload).len() <= room ==> {
                &&& bytes == yet_to_leave(upload)
                &&& upload.body.end is Finished ==> has_left(left) && failure is None
                &&& !upload.producer_finished ==> (upload.body.end matches UploadEndView::Failed(error)
                    ==> failure == Some(error))
            }
        }),
{
    lemma_clear_pump(upload, room);
    let (next, bytes, failure) = output_pumped(exchange, room);
    let left = next.upload->0;
    if failure is Some {
        assert(yet_to_leave(left) =~= Seq::<u8>::empty());
    }
    if yet_to_leave(upload).len() <= room {
        assert(bytes.len() + yet_to_leave(left).len() == yet_to_leave(upload).len());
        if failure is None && left.pending_wire is Some {
            assert(yet_to_leave(left).len() >= left.pending_wire->0.len());
        }
        assert(yet_to_leave(left).len() == 0);
        assert(bytes =~= yet_to_leave(upload));
    }
}

/// Under TLS, whenever the session has encrypted all that it was given, it is given the next piece, or
/// the failure of the producer is reported. A session that still has something to encrypt, or whose
/// handshake is not done, is given nothing.
pub proof fn lemma_body_leaves_through_tls(
    exchange: ExchangeView,
    upload: NativeUploadView,
    phase: TlsPhase,
    room: nat,
)
    requires
        exchange.upload == Some(upload),
        exchange.tls == Some(phase),
        is_addressable(upload),
    ensures
        ({
            let (next, bytes, failure) = output_pumped(exchange, room);
            let left = next.upload->0;
            &&& phase.handshaking || !phase.request_encrypted ==> next == exchange && bytes
                == Seq::<u8>::empty() && failure is None
            &&& !phase.handshaking && phase.request_encrypted ==> {
                &&& next == (ExchangeView {
                    upload: Some(left),
                    tls: Some(
                        TlsPhase { handshaking: false, request_encrypted: bytes.len() == 0 },
                    ),
                    ..exchange
                })
                &&& bytes + yet_to_leave(left) == yet_to_leave(upload)
                &&& upload.pending_wire matches Some(wire) ==> bytes == wire
                &&& upload.pending_wire is None && !upload.producer_finished ==> {
                    &&& upload.body.chunks.len() > 0 ==> bytes == piece(
                        upload.framing,
                        upload.body.chunks[0],
                    ) && left.body.chunks == upload.body.chunks.skip(1) && failure is None
                    &&& upload.body.chunks.len() == 0 && upload.body.end is Finished ==> bytes
                        == closing(upload.framing) && has_left(left) && failure is None
                    &&& upload.body.chunks.len() == 0 ==> (upload.body.end matches UploadEndView::Failed(
                        error,
                    ) ==> failure == Some(error))
                    &&& upload.body.chunks.len() == 0 && upload.body.end is Open ==> failure is None
                }
                &&& failure is None ==> has_left(left) || pieces_left(left) < pieces_left(upload) || (
                left.body.end is Open && left.body.chunks.len() == 0 && left.pending_wire is None)
            }
        }),
{
    lemma_next_piece(upload, None);
    let (next, bytes, failure) = output_pumped(exchange, room);
    let left = next.upload->0;
    assert(bytes + yet_to_leave(left) =~= yet_to_leave(upload));
    if upload.body.chunks.len() > 0 {
        assert(piece(upload.framing, upload.body.chunks[0]) =~= crate::upload::framed(
            upload.framing,
            upload.body.chunks[0],
        ));
        assert(piece(upload.framing, upload.body.chunks[0]).len() <= usize::MAX);
    }
    assert(closing(upload.framing) =~= crate::upload::terminator(upload.framing));
}

/// The exchange once its TLS session, where it has one, has encrypted all that it was given.
pub open spec fn caught_up(exchange: ExchangeView) -> ExchangeView {
    ExchangeView {
        tls: match exchange.tls {
            Some(phase) => Some(TlsPhase { handshaking: phase.handshaking, request_encrypted: true }),
            None => None,
        },
        ..exchange
    }
}

/// What comes out of an exchange that is pumped again and again, each time with some room and with the
/// TLS session caught up in between.
pub open spec fn pumped_again(exchange: ExchangeView, rooms: Seq<nat>) -> (ExchangeView, Seq<u8>)
    decreases rooms.len(),
{
    if rooms.len() == 0 {
        (exchange, Seq::empty())
    } else {
        let (next, bytes, _) = output_pumped(exchange, rooms[0]);
        let (last, rest) = pumped_again(caught_up(next), rooms.skip(1));
        (last, bytes + rest)
    }
}

/// All of a finished body leaves, with TLS and without: pumped once for each piece, and with enough
/// room, the exchange hands out exactly the chunks in their framing and the end behind them.
pub proof fn lemma_whole_body_leaves(
    exchange: ExchangeView,
    upload: NativeUploadView,
    rooms: Seq<nat>,
)
    requires
        exchange.upload == Some(upload),
        upload.body.end is Finished,
        is_addressable(upload),
        exchange.tls matches Some(phase) ==> !phase.handshaking && phase.request_encrypted,
        pieces_left(upload) <= rooms.len(),
        forall|i: int|
            0 <= i < rooms.len() ==> yet_to_leave(upload).len() <= #[trigger] rooms[i]
                <= usize::MAX,
    ensures
        pumped_again(exchange, rooms).1 == yet_to_leave(upload),
        pumped_again(exchange, rooms).0.upload matches Some(left) && has_left(left),
        upload.pending_wire is None && !upload.producer_finished ==> pumped_again(exchange, rooms).1
            == pieces(upload.framing, upload.body.chunks) + closing(upload.framing),
    decreases rooms.len(),
{
    if rooms.len() == 0 {
        assert(yet_to_leave(upload) =~= Seq::<u8>::empty());
    } else {
        let (next, bytes, failure) = output_pumped(exchange, rooms[0]);
        let left = next.upload->0;
        if exchange.tls is None {
            lemma_body_leaves_in_the_clear(exchange, upload, rooms[0]);
            lemma_clear_pump(upload, rooms[0]);
        } else {
            lemma_body_leaves_through_tls(exchange, upload, exchange.tls->0, rooms[0]);
            lemma_next_piece(upload, None);
        }
        assert(bytes.len() + yet_to_leave(left).len() == yet_to_leave(upload).len());
        let later = rooms.skip(1);
        assert forall|i: int| 0 <= i < later.len() implies yet_to_leave(left).len()
            <= #[trigger] later[i] <= usize::MAX by {
            assert(later[i] == rooms[i + 1]);
        }
        lemma_whole_body_leaves(caught_up(next), left, later);
        assert(bytes + yet_to_leave(left) =~= yet_to_leave(upload));
    }
    assert(upload.pending_wire is None && !upload.producer_finished ==> yet_to_leave(upload) =~= pieces(
        upload.framing,
        upload.body.chunks,
    ) + closing(upload.framing));
}

/// What the TLS session is doing, once a report about it was taken.
pub open spec fn phase_after(transfer: TransferView, event: EventView) -> Option<TlsPhase> {
    match (transfer.exchange.tls, event.report.tls) {
        (Some(_), Some(phase)) if !(event.kind is Connected) => Some(phase),
        (phase, _) => phase,
    }
}

/// Whatever frees output takes it along: a connection that stands and output that was written let the
/// body go on, in the clear as far as there is room, through TLS by one piece once the session has
/// encrypted what it had. Nothing is taken for a connection that is known to have failed.
pub proof fn lemma_events_take_output_along(
    transfer: TransferView,
    event: EventView,
    upload: NativeUploadView,
    now: u64,
)
    requires
        event.kind is Connected || event.kind is WriteProgress || event.kind is WriteDrained,
        transfer.exchange.upload == Some(upload),
        is_addressable(upload),
    ensures
        ({
            let step = event_taken(transfer, event, true, now);
            let left = step.transfer.exchange.upload->0;
            let phase = phase_after(transfer, event);
            let ready = phase is None || (!phase->0.handshaking && phase->0.request_encrypted);
            &&& step.transfer.exchange.upload is Some
            &&& step.outbound + yet_to_leave(left) == yet_to_leave(upload)
            &&& !ready ==> step.outbound == Seq::<u8>::empty() && step.outcome is Running
            &&& phase is None ==> step.outbound.len() <= event.report.room
            &&& phase is None && yet_to_leave(upload).len() <= event.report.room ==> {
                &&& step.outbound == yet_to_leave(upload)
                &&& upload.body.end is Finished ==> has_left(left) && step.outcome is Running
                &&& !upload.producer_finished ==> (upload.body.end matches UploadEndView::Failed(error)
                    ==> step.outcome == OutcomeView::Failed(error))
            }
            &&& phase is Some && ready ==> {
                &&& upload.pending_wire matches Some(wire) ==> step.outbound == wire
                &&& upload.pending_wire is None && !upload.producer_finished
                    && upload.body.chunks.len() > 0 ==> step.outbound == piece(
                    upload.framing,
                    upload.body.chunks[0],
                )
                &&& upload.pending_wire is None && !upload.producer_finished
                    && upload.body.chunks.len() == 0 && upload.body.end is Finished ==> step.outbound
                    == closing(upload.framing) && has_left(left)
            }
            &&& event_taken(transfer, event, false, now).outbound == Seq::<u8>::empty()
            &&& event_taken(transfer, event, false, now).transfer.exchange.upload == Some(upload)
        }),
{
    let moved = crate::step::moved(
        transfer,
        if event.kind is Connected {
            None
        } else {
            event.report.tls
        },
        now,
        event.kind is Connected && transfer.exchange.tls is None,
    ).exchange;
    if moved.tls is None {
        lemma_body_leaves_in_the_clear(moved, upload, event.report.room as nat);
    } else {
        lemma_body_leaves_through_tls(moved, upload, moved.tls->0, event.report.room as nat);
        assert(Seq::<u8>::empty() + yet_to_leave(upload) =~= yet_to_leave(upload));
    }
}

/// Bytes that arrive through TLS let the body go on too, once the handshake is done and the session has
/// encrypted what it had; in the clear they do not.
pub proof fn lemma_arrivals_take_output_along(
    transfer: TransferView,
    event: EventView,
    upload: NativeUploadView,
    now: u64,
)
    requires
        event.kind is Data,
        transfer.response is Buffered,
        transfer.exchange.upload == Some(upload),
        is_addressable(upload),
        upload.pending_wire is None,
        !upload.producer_finished,
    ensures
        ({
            let step = event_taken(transfer, event, true, now);
            let phase = event.report.tls;
            let ready = transfer.exchange.tls is Some && phase is Some && !phase->0.handshaking
                && phase->0.request_encrypted;
            &&& transfer.exchange.tls is None ==> step.outbound == Seq::<u8>::empty()
            &&& ready && upload.body.chunks.len() > 0 ==> step.outbound == piece(
                upload.framing,
                upload.body.chunks[0],
            )
            &&& ready && upload.body.chunks.len() == 0 && upload.body.end is Finished ==> step.outbound
                == closing(upload.framing)
        }),
{
    reveal(arrival_noted);
    reveal(buffered_received);
    let phase = event.report.tls;
    let moved = crate::exchange::progressed(
        crate::exchange::tls_adopted(transfer.exchange, phase),
        now,
        transfer.exchange.tls is Some && phase is Some && !phase->0.handshaking,
    );
    if moved.tls is Some {
        lemma_body_leaves_through_tls(moved, upload, moved.tls->0, event.report.room as nat);
    }
}

/// A look at a connection takes output along too, whether or not anything happened on it, where the
/// response is delivered piece by piece.
pub proof fn lemma_looks_take_output_along(
    transfer: TransferView,
    report: SocketReport,
    upload: NativeUploadView,
    now: u64,
)
    requires
        transfer.response is Streaming,
        transfer.exchange.upload == Some(upload),
        transfer.exchange.tls is None,
        is_addressable(upload),
    ensures
        ({
            let step = resumed(transfer, report, now);
            &&& step.outbound.len() <= report.room
            &&& yet_to_leave(upload).len() <= report.room ==> step.outbound == yet_to_leave(upload)
        }),
{
    lemma_body_leaves_in_the_clear(
        crate::exchange::tls_adopted(transfer.exchange, report.tls),
        upload,
        report.room as nat,
    );
}

} // verus!
