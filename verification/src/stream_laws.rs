//! What the streaming decoder shares with the buffering one, and what the reader can rely on.

use crate::decoder::{decoder_ok, decoder_step, lemma_decoder_step_ok, run, DecoderView, RunEnd};
use crate::decoder_laws::{bytes_left, lemma_each_byte_counts};
use crate::framing::{frame_ok, frame_step, is_failure, lemma_frame_step_ok, FrameEvent};
use crate::stream::{sink_finish, sink_push, sink_room, Refusal, SinkEndView, SinkView};
use crate::stream_decoder::{
    awaits_body, run_outcome, stream_ingest, stream_ok, stream_room, stream_run, stream_step,
    StreamProgressView, StreamRun, StreamStop, StreamView,
};
use crate::types::{ErrorView, ResponseView};
use vstd::prelude::*;

verus! {

/// A run takes no more bytes than there are and collects no more than there is room for. Collected
/// bytes are only added at the end, and the sink is left alone.
pub proof fn lemma_stream_run_bounds(
    stream: StreamView,
    bytes: Seq<u8>,
    room: nat,
    body: Seq<u8>,
)
    requires
        stream.output is Deliver ==> body.len() <= room,
    ensures
        stream_run(stream, bytes, room, body).consumed <= bytes.len(),
        stream.output is Deliver ==> stream_run(stream, bytes, room, body).body.len() <= room,
        body.is_prefix_of(stream_run(stream, bytes, room, body).body),
        !(stream.output is Deliver) ==> stream_run(stream, bytes, room, body).body == body,
        stream_run(stream, bytes, room, body).next.response == stream.response,
        stream_run(stream, bytes, room, body).next.output == stream.output,
        stream_run(stream, bytes, room, body).stop is More ==> stream_run(
            stream,
            bytes,
            room,
            body,
        ).consumed == bytes.len(),
        stream_run(stream, bytes, room, body).stop is Blocked ==> stream.output is Deliver
            && stream_run(stream, bytes, room, body).body.len() == room,
        !(stream_run(stream, bytes, room, body).stop is More) && !(stream_run(
            stream,
            bytes,
            room,
            body,
        ).stop is Blocked) ==> stream_run(stream, bytes, room, body).consumed > 0,
    decreases bytes.len(),
{
    if bytes.len() > 0 && !(stream.output is Deliver && awaits_body(stream.frame.state)
        && body.len() == room) {
        let (next, event) = stream_step(stream, bytes[0]);
        let collected = if event is Body && stream.output is Deliver {
            body.push(bytes[0])
        } else {
            body
        };
        assert(event is Body ==> awaits_body(stream.frame.state));
        match event {
            FrameEvent::Failed(_) => {},
            FrameEvent::Spent => {},
            FrameEvent::Head { .. } => {},
            _ => if !(next.frame.state is Complete) {
                lemma_stream_run_bounds(next, bytes.skip(1), room, collected);
            },
        }
    }
}

/// The decoder never pushes more than the queue takes: delivery is refused only because the reader
/// closed, delivery ended, no head was published or the body is too long.
pub proof fn lemma_ingest_respects_the_queue(stream: StreamView, bytes: Seq<u8>)
    requires
        stream_ok(stream),
        stream.output is Deliver,
        stream.response is Some,
        !(stream.frame.state is Complete),
    ensures
        ({
            let taken = stream_run(stream, bytes, stream_room(stream), Seq::empty());
            &&& taken.body.len() <= sink_room(stream.response->0)
            &&& sink_push(stream.response->0, taken.body) != Err::<SinkView, Refusal>(
                Refusal::WouldBlock,
            )
        }),
{
    lemma_stream_run_bounds(stream, bytes, stream_room(stream), Seq::empty());
}

/// A discarded response leaves the sink exactly as it was, so the response that follows a redirect
/// is delivered through it as if it were the first.
pub proof fn lemma_discarding_leaves_the_sink_alone(stream: StreamView, bytes: Seq<u8>)
    requires
        stream_ok(stream),
        stream.output is Discard,
    ensures
        stream_ingest(stream, bytes).0.response == stream.response,
        stream_ingest(stream, bytes).0.output is Discard,
{
    reveal(stream_ingest);
    lemma_stream_run_bounds(stream, bytes, stream_room(stream), Seq::empty());
}

/// Fragmentation does not matter: a run over two parts goes on with the second one where the first
/// one ended.
pub proof fn lemma_stream_run_concat(
    stream: StreamView,
    first: Seq<u8>,
    second: Seq<u8>,
    room: nat,
    body: Seq<u8>,
)
    ensures
        stream_run(stream, first + second, room, body) == ({
            let taken = stream_run(stream, first, room, body);
            if taken.stop is More {
                let rest = stream_run(taken.next, second, room, taken.body);
                StreamRun { consumed: first.len() + rest.consumed, ..rest }
            } else {
                taken
            }
        }),
    decreases first.len(),
{
    if first.len() == 0 {
        assert(first + second =~= second);
    } else if !(stream.output is Deliver && awaits_body(stream.frame.state) && body.len() == room) {
        let whole = first + second;
        assert(whole[0] == first[0]);
        assert(whole.skip(1) =~= first.skip(1) + second);
        let (next, event) = stream_step(stream, first[0]);
        let collected = if event is Body && stream.output is Deliver {
            body.push(first[0])
        } else {
            body
        };
        match event {
            FrameEvent::Failed(_) => {},
            FrameEvent::Spent => {},
            FrameEvent::Head { .. } => {},
            _ => if !(next.frame.state is Complete) {
                lemma_stream_run_concat(next, first.skip(1), second, room, collected);
            },
        }
    }
}

/// What the streaming decoder delivers is what the buffering decoder returns. Over the bytes that a
/// delivering run takes, a buffering decoder in the same framing state adds the same bytes to its
/// body, ends at the same byte, and fails with the same error.
pub proof fn lemma_streaming_delivers_the_buffered_body(
    stream: StreamView,
    decoder: DecoderView,
    bytes: Seq<u8>,
    room: nat,
    body: Seq<u8>,
)
    requires
        decoder_ok(decoder),
        stream.frame == decoder.frame,
        stream.output is Deliver,
        !(decoder.frame.state is Head),
        !(decoder.frame.state is Complete),
        body.len() <= room,
    ensures
        ({
            let taken = stream_run(stream, bytes, room, body);
            let added = taken.body.skip(body.len() as int);
            let (next, end) = run(decoder, bytes.take(taken.consumed as int));
            match taken.stop {
                StreamStop::More | StreamStop::Blocked => {
                    &&& end is More
                    &&& next.frame == taken.next.frame
                    &&& next.body == decoder.body + added
                    &&& next.status == decoder.status
                    &&& next.headers == decoder.headers
                },
                StreamStop::Complete => {
                    &&& end == (RunEnd::Done {
                        response: ResponseView {
                            status: decoder.status->0,
                            headers: decoder.headers,
                            body: decoder.body + added,
                        },
                        consumed: taken.consumed,
                    })
                    &&& next.frame.permits_reuse == taken.next.frame.permits_reuse
                },
                StreamStop::Failed(error) => end == RunEnd::Failed(error),
                StreamStop::Head(_) => false,
            }
        }),
    decreases bytes.len(),
{
    let taken = stream_run(stream, bytes, room, body);
    lemma_stream_run_bounds(stream, bytes, room, body);
    if bytes.len() == 0 || (awaits_body(stream.frame.state) && body.len() == room) {
        assert(bytes.take(0) =~= Seq::<u8>::empty());
        assert(body.skip(body.len() as int) =~= Seq::<u8>::empty());
        assert(decoder.body + Seq::<u8>::empty() =~= decoder.body);
    } else {
        lemma_decoder_step_ok(decoder, bytes[0]);
        let prefix = bytes.take(taken.consumed as int);
        assert(prefix[0] == bytes[0]);
        let (frame, event) = frame_step(stream.frame, bytes[0]);
        let (next, outcome) = decoder_step(decoder, bytes[0]);
        let collected = if event is Body {
            body.push(bytes[0])
        } else {
            body
        };
        let stepped = stream_step(stream, bytes[0]).0;
        if event is Failed || event is Spent || event is Head {
        } else if frame.state is Complete {
            assert(collected.skip(body.len() as int) =~= if event is Body {
                seq![bytes[0]]
            } else {
                Seq::<u8>::empty()
            });
            assert(decoder.body + collected.skip(body.len() as int) =~= if event is Body {
                decoder.body.push(bytes[0])
            } else {
                decoder.body
            });
        } else {
            lemma_streaming_delivers_the_buffered_body(
                stepped,
                next,
                bytes.skip(1),
                room,
                collected,
            );
            let rest = stream_run(stepped, bytes.skip(1), room, collected);
            assert(prefix.skip(1) =~= bytes.skip(1).take(rest.consumed as int));
            lemma_stream_run_bounds(stepped, bytes.skip(1), room, collected);
            assert(next.body + rest.body.skip(collected.len() as int) =~= decoder.body
                + taken.body.skip(body.len() as int)) by {
                if event is Body {
                    assert(rest.body[body.len() as int] == collected[body.len() as int]);
                }
            }
        }
    }
}

/// The final head that the streaming decoder offers is the one that the buffering decoder keeps, at
/// the same byte, and both go on in the same framing state.
pub proof fn lemma_streaming_offers_the_buffered_head(
    stream: StreamView,
    decoder: DecoderView,
    bytes: Seq<u8>,
    room: nat,
)
    requires
        decoder_ok(decoder),
        stream.frame == decoder.frame,
        stream.output is AwaitHead,
        decoder.frame.state is Head,
    ensures
        ({
            let taken = stream_run(stream, bytes, room, Seq::empty());
            let (next, end) = run(decoder, bytes.take(taken.consumed as int));
            match taken.stop {
                StreamStop::More => end is More && next.frame == taken.next.frame,
                StreamStop::Head(head) => if taken.next.frame.state is Complete {
                    &&& end == (RunEnd::Done {
                        response: ResponseView {
                            status: head.status,
                            headers: head.headers,
                            body: Seq::empty(),
                        },
                        consumed: taken.consumed,
                    })
                    &&& next.frame.permits_reuse == taken.next.frame.permits_reuse
                } else {
                    &&& end is More
                    &&& next.frame == taken.next.frame
                    &&& next.status == Some(head.status)
                    &&& next.headers == head.headers
                    &&& next.body.len() == 0
                },
                StreamStop::Failed(error) => end == RunEnd::Failed(error),
                _ => false,
            }
        }),
    decreases bytes.len(),
{
    let taken = stream_run(stream, bytes, room, Seq::empty());
    lemma_stream_run_bounds(stream, bytes, room, Seq::empty());
    if bytes.len() == 0 {
        assert(bytes.take(0) =~= Seq::<u8>::empty());
    } else {
        lemma_decoder_step_ok(decoder, bytes[0]);
        let prefix = bytes.take(taken.consumed as int);
        assert(prefix[0] == bytes[0]);
        let (frame, event) = frame_step(stream.frame, bytes[0]);
        let (next, outcome) = decoder_step(decoder, bytes[0]);
        let stepped = stream_step(stream, bytes[0]).0;
        if event is Failed {
        } else if event is Head {
            assert(prefix.skip(1) =~= Seq::<u8>::empty());
            reveal_with_fuel(run, 2);
            assert(decoder.body =~= Seq::<u8>::empty());
        } else {
            lemma_streaming_offers_the_buffered_head(stepped, next, bytes.skip(1), room);
            let rest = stream_run(stepped, bytes.skip(1), room, Seq::empty());
            assert(prefix.skip(1) =~= bytes.skip(1).take(rest.consumed as int));
        }
    }
}

/// A response that is discarded is framed as the buffering decoder frames it: it ends at the same
/// byte and fails with the same error.
pub proof fn lemma_discarding_follows_the_buffered_framing(
    stream: StreamView,
    decoder: DecoderView,
    bytes: Seq<u8>,
    room: nat,
)
    requires
        decoder_ok(decoder),
        stream.frame == decoder.frame,
        stream.output is Discard,
        !(decoder.frame.state is Head),
        !(decoder.frame.state is Complete),
    ensures
        ({
            let taken = stream_run(stream, bytes, room, Seq::empty());
            let (next, end) = run(decoder, bytes.take(taken.consumed as int));
            match taken.stop {
                StreamStop::More => {
                    &&& end is More
                    &&& next.frame == taken.next.frame
                    &&& next.status == decoder.status
                    &&& next.headers == decoder.headers
                },
                StreamStop::Complete => {
                    &&& end matches RunEnd::Done { response, consumed }
                    &&& response.status == decoder.status->0
                    &&& response.headers == decoder.headers
                    &&& consumed == taken.consumed
                    &&& next.frame.permits_reuse == taken.next.frame.permits_reuse
                },
                StreamStop::Failed(error) => end == RunEnd::Failed(error),
                _ => false,
            }
        }),
    decreases bytes.len(),
{
    let taken = stream_run(stream, bytes, room, Seq::empty());
    lemma_stream_run_bounds(stream, bytes, room, Seq::empty());
    if bytes.len() == 0 {
        assert(bytes.take(0) =~= Seq::<u8>::empty());
    } else {
        lemma_decoder_step_ok(decoder, bytes[0]);
        let prefix = bytes.take(taken.consumed as int);
        assert(prefix[0] == bytes[0]);
        let (frame, event) = frame_step(stream.frame, bytes[0]);
        let (next, outcome) = decoder_step(decoder, bytes[0]);
        let stepped = stream_step(stream, bytes[0]).0;
        if !(event is Failed) && !(frame.state is Complete) {
            lemma_discarding_follows_the_buffered_framing(stepped, next, bytes.skip(1), room);
            let rest = stream_run(stepped, bytes.skip(1), room, Seq::empty());
            assert(prefix.skip(1) =~= bytes.skip(1).take(rest.consumed as int));
        }
    }
}

/// Delivery ends once: whatever is reported after the first end changes nothing.
pub proof fn lemma_first_end_stands(sink: SinkView, first: SinkEndView, second: SinkEndView)
    ensures
        sink_finish(sink_finish(sink, first), second) == sink_finish(sink, first),
        sink.end is None ==> sink_finish(sink, first).end == Some(first),
        sink_finish(sink, first).queue == sink.queue,
{
}

/// A response that is delivered or discarded draws on the same bytes as one that is held in memory:
/// what a run takes is no longer left to the runs after it.
pub proof fn lemma_streaming_uses_the_same_bytes(
    stream: StreamView,
    bytes: Seq<u8>,
    room: nat,
    body: Seq<u8>,
)
    requires
        frame_ok(stream.frame),
    ensures
        !(stream_run(stream, bytes, room, body).stop is Failed) ==> {
            &&& frame_ok(stream_run(stream, bytes, room, body).next.frame)
            &&& stream_run(stream, bytes, room, body).consumed + bytes_left(
                stream_run(stream, bytes, room, body).next.frame,
            ) <= bytes_left(stream.frame)
        },
    decreases bytes.len(),
{
    if bytes.len() > 0 && !(stream.output is Deliver && awaits_body(stream.frame.state)
        && body.len() == room) {
        let (next, event) = stream_step(stream, bytes[0]);
        if !is_failure(event) {
            lemma_frame_step_ok(stream.frame, bytes[0]);
            lemma_each_byte_counts(stream.frame, bytes[0]);
            let collected = if event is Body && stream.output is Deliver {
                body.push(bytes[0])
            } else {
                body
            };
            if !(event is Head) && !(next.frame.state is Complete) {
                lemma_streaming_uses_the_same_bytes(next, bytes.skip(1), room, collected);
            }
        }
    }
}

/// What a run leads to: an error as it is; else what was collected goes to the reader, and a head, a
/// lack of room, a lack of bytes or the end is reported. At the end a reader learns that all was there.
pub proof fn lemma_runs_are_reported(taken: StreamRun, sink: SinkView)
    requires
        taken.next.response == Some(sink),
        taken.body.len() == 0,
    ensures
        taken.stop matches StreamStop::Failed(error) ==> run_outcome(taken).1 == Err::<
            StreamProgressView,
            ErrorView,
        >(error),
        taken.stop matches StreamStop::Head(head) ==> run_outcome(taken) == (
            taken.next,
            Ok::<StreamProgressView, ErrorView>(
                StreamProgressView::Head { head, consumed: taken.consumed },
            ),
        ),
        taken.stop is More || taken.stop is Blocked ==> run_outcome(taken) == (
            taken.next,
            Ok::<StreamProgressView, ErrorView>(
                StreamProgressView::Body {
                    consumed: taken.consumed,
                    blocked: taken.stop is Blocked,
                },
            ),
        ),
        taken.stop is Complete ==> {
            &&& run_outcome(taken).1 == Ok::<StreamProgressView, ErrorView>(
                StreamProgressView::Complete {
                    consumed: taken.consumed,
                    permits_reuse: taken.next.frame.permits_reuse,
                    delivered: taken.next.output is Deliver,
                },
            )
            &&& taken.next.output is Deliver ==> run_outcome(taken).0.response == Some(
                if sink.end is None {
                    SinkView { end: Some(SinkEndView::Complete), ..sink }
                } else {
                    sink
                },
            )
            &&& !(taken.next.output is Deliver) ==> run_outcome(taken).0.response == Some(sink)
        },
{
}

} // verus!
