//! What holds of every response that is delivered piece by piece: what its reader gets, in what order,
//! and when nothing more fits.

use crate::stream::{sink_finish, sink_push, sink_read, ReadView, Refusal, SinkEndView, SinkView};
use crate::types::ErrorView;
use vstd::prelude::*;

verus! {

/// Bytes are taken exactly where the response has a head and no end, its reader still reads, its limit
/// on the body is kept and there is room. Otherwise the first reason in that order is given: closed,
/// no head, limit, no room.
pub proof fn lemma_bytes_are_taken_while_there_is_room(sink: SinkView, bytes: Seq<u8>)
    requires
        sink.queue.len() <= sink.capacity,
    ensures
        ({
            let shut = sink.end is Some || sink.reader_closed;
            let over = sink.accepted + bytes.len() > sink.body_limit;
            let full = sink.queue.len() + bytes.len() > sink.capacity;
            let pushed = sink_push(sink, bytes);
            &&& shut ==> pushed == Err::<SinkView, Refusal>(Refusal::Closed)
            &&& !shut && sink.head is None ==> pushed == Err::<SinkView, Refusal>(Refusal::Protocol)
            &&& !shut && sink.head is Some && over ==> pushed == Err::<SinkView, Refusal>(
                Refusal::Limit,
            )
            &&& !shut && sink.head is Some && !over && full ==> pushed == Err::<SinkView, Refusal>(
                Refusal::WouldBlock,
            )
            &&& !shut && sink.head is Some && !over && !full ==> pushed == Ok::<SinkView, Refusal>(
                SinkView {
                    queue: sink.queue + bytes,
                    accepted: sink.accepted + bytes.len(),
                    ..sink
                },
            )
        }),
{
}

/// The reader gets the bytes in the order in which they came, as many at a time as it asks for and there
/// are, and each of them once.
pub proof fn lemma_readers_get_every_byte_in_order(sink: SinkView, most: nat)
    requires
        sink.queue.len() > 0,
    ensures
        sink_read(sink, most).1 matches ReadView::Data(bytes) && {
            &&& bytes + sink_read(sink, most).0.queue == sink.queue
            &&& bytes.len() == if most < sink.queue.len() {
                most
            } else {
                sink.queue.len()
            }
            &&& sink_read(sink, most).0 == (SinkView {
                queue: sink_read(sink, most).0.queue,
                ..sink
            })
        },
{
    let (next, read) = sink_read(sink, most);
    if let ReadView::Data(bytes) = read {
        assert(bytes + next.queue =~= sink.queue);
    }
}

/// The reader learns of the end once it has read everything: that there is more to come, that all was
/// there, or what went wrong.
pub proof fn lemma_the_end_comes_last(sink: SinkView, most: nat, error: ErrorView)
    ensures
        sink.queue.len() > 0 ==> sink_read(sink, most).1 is Data,
        sink.queue.len() == 0 ==> sink_read(sink, most).0 == sink,
        sink.queue.len() == 0 && sink.end is None ==> sink_read(sink, most).1 is Pending,
        sink.queue.len() == 0 && sink.end == Some(SinkEndView::Complete) ==> sink_read(
            sink,
            most,
        ).1 is Eof,
        sink.queue.len() == 0 && sink.end == Some(SinkEndView::Cancelled) ==> sink_read(
            sink,
            most,
        ).1 is Cancelled,
        sink.queue.len() == 0 && sink.end == Some(SinkEndView::Failed(error)) ==> sink_read(
            sink,
            most,
        ).1 == ReadView::Failed(error),
{
}

/// What was delivered is read back: bytes that were taken come out behind those already there, and then
/// the end.
pub proof fn lemma_reading_gives_back_what_was_pushed(sink: SinkView, bytes: Seq<u8>)
    requires
        sink_push(sink, bytes) is Ok,
        sink.queue.len() + bytes.len() > 0,
    ensures
        ({
            let ended = sink_finish(sink_push(sink, bytes)->Ok_0, SinkEndView::Complete);
            let all = sink.queue + bytes;
            &&& sink_read(ended, all.len()).1 == ReadView::Data(all)
            &&& sink_read(sink_read(ended, all.len()).0, all.len()).1 is Eof
        }),
{
    let all = sink.queue + bytes;
    assert(all.take(all.len() as int) =~= all);
}

} // verus!
