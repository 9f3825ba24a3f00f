//! A driver that feeds the streaming decoder in fragments against a reader that lags behind.

use crate::decoder::{decoder_ok, fresh_decoder, lemma_run_concat, run, DecoderView, RunEnd};
use crate::decoder_laws::lemma_run_within_limits;
use crate::fuzz::{
    decoded, lemma_next_fragment, next_fragment, select_limits, select_wire, selected_limits,
    selected_wire, FuzzDecodeOutcome, OutcomeView, Schedule,
};
use crate::stream::{
    sink_finish, sink_ok, sink_open, ResponseSink, SinkEndView, SinkView, StreamRead,
};
use crate::stream_decoder::{
    head_decided, stream_eof, stream_ingest, stream_ok, stream_room, stream_run, StreamDecodeProgress, StreamHeadDecision, StreamOutput,
    StreamStop, StreamView, StreamingResponseDecoder,
};
use crate::stream_laws::{
    lemma_discarding_follows_the_buffered_framing, lemma_stream_run_bounds,
    lemma_streaming_delivers_the_buffered_body, lemma_streaming_offers_the_buffered_head,
};
use crate::types::{ErrorView, HttpLimits, Response, ResponseHead, ResponseView};
use vstd::prelude::*;
use vstd::string::*;

verus! {

/// The same response without its body.
pub open spec fn emptied(response: ResponseView) -> ResponseView {
    ResponseView { body: Seq::empty(), ..response }
}

/// What a reader learns of a message: everything, or everything but the body.
pub open spec fn observed(outcome: OutcomeView, deliver: bool) -> OutcomeView {
    if deliver {
        outcome
    } else {
        match outcome {
            OutcomeView::Complete { response, consumed, permits_reuse } => OutcomeView::Complete {
                response: emptied(response),
                consumed,
                permits_reuse,
            },
            OutcomeView::Failed(error) => OutcomeView::Failed(error),
            OutcomeView::Eof { response, permits_reuse } => OutcomeView::Eof {
                response: match response {
                    Some(response) => Some(emptied(response)),
                    None => None,
                },
                permits_reuse,
            },
        }
    }
}

/// A decoder for a response that is not to HEAD, with an open sink.
pub fn synthetic_stream_decoder(queue_capacity: usize, limits: HttpLimits) -> (result:
    StreamingResponseDecoder)
    ensures
        result.wf(),
        result@.frame == crate::framing::fresh_frame(false, limits),
        result@.pending_head is None,
        result@.output is AwaitHead,
        result@.response == Some(
            SinkView {
                capacity: queue_capacity,
                body_limit: limits.body_bytes,
                head: None,
                queue: Seq::empty(),
                accepted: 0,
                end: None,
                reader_closed: false,
            },
        ),
{
    StreamingResponseDecoder::new(
        false,
        limits,
        ResponseSink::new(queue_capacity, limits.body_bytes),
    )
}

/// A streaming decoder that has kept step with a buffering one over the same bytes. `received` is
/// what the reader took out so far.
pub open spec fn in_step(
    stream: StreamView,
    buffered: DecoderView,
    received: Seq<u8>,
    deliver: bool,
) -> bool {
    &&& stream_ok(stream)
    &&& decoder_ok(buffered)
    &&& stream.frame == buffered.frame
    &&& stream.pending_head is None
    &&& !(stream.frame.state is Complete)
    &&& stream.response matches Some(sink)
    &&& sink_open(sink)
    &&& sink.capacity > 0
    &&& sink.body_limit == stream.frame.limits.body_bytes
    &&& match stream.output {
        StreamOutput::AwaitHead => received.len() == 0 && sink.accepted == 0 && sink.queue.len()
            == 0,
        StreamOutput::Deliver => {
            &&& deliver
            &&& sink.head == Some(
                crate::types::ResponseHeadView {
                    status: buffered.status->0,
                    headers: buffered.headers,
                },
            )
            &&& sink.accepted == buffered.body.len()
            &&& received + sink.queue == buffered.body
        },
        StreamOutput::Discard => !deliver && received.len() == 0,
    }
}

/// One ingest keeps the two decoders in step, or both end, or both fail.
proof fn lemma_ingest_keeps_step(
    stream: StreamView,
    buffered: DecoderView,
    received: Seq<u8>,
    deliver: bool,
    part: Seq<u8>,
)
    requires
        in_step(stream, buffered, received, deliver),
        !(stream.output is AwaitHead),
    ensures
        ({
            let (next, progress) = stream_ingest(stream, part);
            match progress {
                Err(error) => run(buffered, part).1 == RunEnd::Failed(error),
                Ok(crate::stream_decoder::StreamProgressView::Head { .. }) => false,
                Ok(crate::stream_decoder::StreamProgressView::Body { consumed, blocked }) => {
                    let (followed, end) = run(buffered, part.take(consumed as int));
                    &&& consumed <= part.len()
                    &&& end is More
                    &&& in_step(next, followed, received, deliver)
                    &&& next.output == stream.output
                    &&& !blocked ==> consumed == part.len()
                    &&& blocked ==> next.output is Deliver && next.response->0.queue.len() > 0
                    &&& followed.status == buffered.status
                    &&& followed.headers == buffered.headers
                },
                Ok(
                    crate::stream_decoder::StreamProgressView::Complete {
                        consumed,
                        permits_reuse,
                        delivered,
                    },
                ) => {
                    let (last, end) = run(buffered, part.take(consumed as int));
                    &&& consumed <= part.len()
                    &&& end matches RunEnd::Done { response, consumed: at }
                    &&& at == consumed
                    &&& last.frame.permits_reuse == permits_reuse
                    &&& delivered == deliver
                    &&& response.status == buffered.status->0
                    &&& response.headers == buffered.headers
                    &&& deliver ==> received + next.response->0.queue == response.body
                    &&& next.response is Some && sink_ok(next.response->0)
                    &&& deliver ==> next.response->0.end == Some(SinkEndView::Complete)
                    &&& next.frame.state is Complete
                    &&& next.output == stream.output
                },
            }
        }),
{
    reveal(stream_ingest);
    let room = stream_room(stream);
    let taken = stream_run(stream, part, room, Seq::empty());
    let prefix = part.take(taken.consumed as int);
    lemma_stream_run_bounds(stream, part, room, Seq::empty());
    lemma_run_within_limits(buffered, prefix);
    assert(part =~= prefix + part.skip(taken.consumed as int));
    lemma_run_concat(buffered, prefix, part.skip(taken.consumed as int));
    assert(taken.body.skip(0) =~= taken.body);
    if stream.output is Deliver {
        lemma_streaming_delivers_the_buffered_body(stream, buffered, part, room, Seq::empty());
        let sink = stream.response->0;
        assert(received + (sink.queue + taken.body) =~= received + sink.queue + taken.body);
        lemma_stream_run_keeps_ok(stream, part, room, Seq::empty());
    } else {
        lemma_discarding_follows_the_buffered_framing(stream, buffered, part, room);
        lemma_stream_run_keeps_ok(stream, part, room, Seq::empty());
    }
    if taken.stop is Complete {
        lemma_done_body_fits(buffered, prefix);
    }
}

/// A complete response keeps to the limit on its body.
proof fn lemma_done_body_fits(decoder: DecoderView, bytes: Seq<u8>)
    requires
        decoder_ok(decoder),
    ensures
        run(decoder, bytes).1 matches RunEnd::Done { response, .. } ==> response.body.len()
            <= decoder.frame.limits.body_bytes,
        run(decoder, bytes).0.frame.limits == decoder.frame.limits,
    decreases bytes.len(),
{
    if bytes.len() > 0 {
        crate::decoder::lemma_decoder_step_ok(decoder, bytes[0]);
        crate::framing::lemma_frame_step_ok(decoder.frame, bytes[0]);
        let (next, outcome) = crate::decoder::decoder_step(decoder, bytes[0]);
        if outcome matches Ok(None) {
            lemma_done_body_fits(next, bytes.skip(1));
        }
    }
}

/// A run that does not fail ends in a state that a response without a violation can be in.
pub proof fn lemma_stream_run_keeps_ok(stream: StreamView, bytes: Seq<u8>, room: nat, body: Seq<u8>)
    requires
        stream_ok(stream),
        stream.pending_head is None,
    ensures
        ({
            let taken = stream_run(stream, bytes, room, body);
            &&& !(taken.stop is Failed) ==> stream_ok(taken.next)
            &&& taken.stop is Complete ==> taken.next.frame.state is Complete
            &&& (taken.stop is More || taken.stop is Blocked) && !(stream.frame.state is Complete)
                ==> !(taken.next.frame.state is Complete) && taken.next.pending_head is None
            &&& taken.next.frame.limits == stream.frame.limits
        }),
    decreases bytes.len(),
{
    if bytes.len() > 0 {
        crate::stream_decoder::lemma_stream_step_ok(stream, bytes[0]);
        crate::framing::lemma_frame_step_ok(stream.frame, bytes[0]);
        let (next, event) = crate::stream_decoder::stream_step(stream, bytes[0]);
        let collected = if event is Body && stream.output is Deliver {
            body.push(bytes[0])
        } else {
            body
        };
        if !crate::framing::is_failure(event) && !(event is Head) {
            lemma_stream_run_keeps_ok(next, bytes.skip(1), room, collected);
        }
    }
}

/// While heads are read, one ingest keeps the two decoders in step, or the final head is there at
/// the same byte, or both fail.
proof fn lemma_head_ingest_keeps_step(
    stream: StreamView,
    buffered: DecoderView,
    deliver: bool,
    part: Seq<u8>,
)
    requires
        in_step(stream, buffered, Seq::empty(), deliver),
        stream.output is AwaitHead,
    ensures
        ({
            let (next, progress) = stream_ingest(stream, part);
            match progress {
                Err(error) => run(buffered, part).1 == RunEnd::Failed(error),
                Ok(crate::stream_decoder::StreamProgressView::Head { head, consumed }) => {
                    let (followed, end) = run(buffered, part.take(consumed as int));
                    &&& 0 < consumed <= part.len()
                    &&& stream_ok(next)
                    &&& next.pending_head == Some(head)
                    &&& next.response == stream.response
                    &&& if next.frame.state is Complete {
                        &&& end == (RunEnd::Done {
                            response: ResponseView {
                                status: head.status,
                                headers: head.headers,
                                body: Seq::empty(),
                            },
                            consumed,
                        })
                        &&& followed.frame.permits_reuse == next.frame.permits_reuse
                    } else {
                        &&& end is More
                        &&& decoder_ok(followed)
                        &&& followed.frame == next.frame
                        &&& followed.status == Some(head.status)
                        &&& followed.headers == head.headers
                        &&& followed.body.len() == 0
                    }
                    &&& next.frame.limits == stream.frame.limits
                },
                Ok(crate::stream_decoder::StreamProgressView::Body { consumed, blocked }) => {
                    let (followed, end) = run(buffered, part.take(consumed as int));
                    &&& consumed == part.len()
                    &&& !blocked
                    &&& end is More
                    &&& in_step(next, followed, Seq::empty(), deliver)
                    &&& next.output is AwaitHead
                },
                Ok(crate::stream_decoder::StreamProgressView::Complete { .. }) => false,
            }
        }),
{
    reveal(stream_ingest);
    let room = stream_room(stream);
    let taken = stream_run(stream, part, room, Seq::empty());
    let prefix = part.take(taken.consumed as int);
    lemma_stream_run_bounds(stream, part, room, Seq::empty());
    lemma_run_within_limits(buffered, prefix);
    assert(part =~= prefix + part.skip(taken.consumed as int));
    lemma_run_concat(buffered, prefix, part.skip(taken.consumed as int));
    lemma_streaming_offers_the_buffered_head(stream, buffered, part, room);
    lemma_stream_run_keeps_ok(stream, part, room, Seq::empty());
    lemma_offered_head_is_pending(stream, part, room, Seq::empty());
}

/// A head that is offered waits for its decision.
pub proof fn lemma_offered_head_is_pending(
    stream: StreamView,
    bytes: Seq<u8>,
    room: nat,
    body: Seq<u8>,
)
    ensures
        stream_run(stream, bytes, room, body).stop matches StreamStop::Head(head) ==> stream_run(
            stream,
            bytes,
            room,
            body,
        ).next.pending_head == Some(head),
    decreases bytes.len(),
{
    if bytes.len() > 0 {
        let (next, event) = crate::stream_decoder::stream_step(stream, bytes[0]);
        let collected = if event is Body && stream.output is Deliver {
            body.push(bytes[0])
        } else {
            body
        };
        lemma_offered_head_is_pending(next, bytes.skip(1), room, collected);
    }
}

/// Deciding the final head keeps the two decoders in step, unless the response is complete.
proof fn lemma_decision_keeps_step(stream: StreamView, buffered: DecoderView, deliver: bool)
    requires
        stream_ok(stream),
        stream.pending_head is Some,
        stream.response matches Some(sink) && sink_open(sink) && sink.capacity > 0
            && sink.body_limit == stream.frame.limits.body_bytes && sink.accepted == 0
            && sink.queue.len() == 0,
        !(stream.frame.state is Complete) ==> {
            &&& decoder_ok(buffered)
            &&& buffered.frame == stream.frame
            &&& buffered.status == Some(stream.pending_head->0.status)
            &&& buffered.headers == stream.pending_head->0.headers
            &&& buffered.body.len() == 0
        },
    ensures
        head_decided(stream, deliver).1 == Ok::<StreamHeadDecision, ErrorView>(
            StreamHeadDecision {
                complete: stream.frame.state is Complete,
                permits_reuse: stream.frame.permits_reuse,
            },
        ),
        stream_ok(head_decided(stream, deliver).0),
        head_decided(stream, deliver).0.output is Deliver <==> deliver,
        head_decided(stream, deliver).0.output is Discard <==> !deliver,
        head_decided(stream, deliver).0.response is Some,
        head_decided(stream, deliver).0.frame == stream.frame,
        !(stream.frame.state is Complete) ==> in_step(
            head_decided(stream, deliver).0,
            buffered,
            Seq::empty(),
            deliver,
        ),
{
    reveal(head_decided);
    if !(stream.frame.state is Complete) {
        let sink = stream.response->0;
        assert(Seq::<u8>::empty() + sink.queue =~= buffered.body);
    }
}

/// Takes up to `most` bytes out of the queue of a decoder.
fn read_some(decoder: &mut StreamingResponseDecoder, received: &mut Vec<u8>, most: usize)
    requires
        old(decoder)@.response matches Some(sink) ==> sink_ok(sink),
        most > 0,
    ensures
        match old(decoder)@.response {
            Some(sink) => {
                &&& final(decoder)@.response matches Some(left)
                &&& final(decoder)@ == (StreamView { response: Some(left), ..old(decoder)@ })
                &&& left == (SinkView { queue: left.queue, ..sink })
                &&& final(received)@ + left.queue == old(received)@ + sink.queue
                &&& sink_ok(left)
                &&& sink.queue.len() > 0 ==> left.queue.len() < sink.queue.len()
                &&& sink.queue.len() <= most ==> left.queue.len() == 0
            },
            None => final(decoder)@ == old(decoder)@ && final(received)@ == old(received)@,
        },
{
    if let Ok(sink) = decoder.response_mut() {
        let ghost queue = sink@.queue;
        if let StreamRead::Data(bytes) = sink.try_read(most) {
            received.extend_from_slice(bytes.as_slice());
            assert(received@ + sink@.queue =~= old(received)@ + queue);
        }
    }
}

/// Decodes a message in fragments while a reader takes out a few bytes whenever the queue is full.
/// However the message is cut and however far the reader lags, the reader gets exactly the response
/// that the buffering decoder returns; a discarded response gets the same verdict without its body.
#[verifier::rlimit(40)]
pub fn drive_stream(
    wire: &[u8],
    response_to_head: bool,
    limits: HttpLimits,
    capacity: usize,
    deliver: bool,
    schedule: Schedule,
    read_most: usize,
) -> (result: FuzzDecodeOutcome)
    requires
        capacity > 0,
        read_most > 0,
    ensures
        result@ == observed(decoded(wire@, response_to_head, limits), deliver),
{
    let sink = ResponseSink::new(capacity, limits.body_bytes);
    let mut decoder = StreamingResponseDecoder::new(response_to_head, limits, sink);
    let ghost start = fresh_decoder(response_to_head, limits);
    let ghost mut buffered = start;
    let mut head: Option<ResponseHead> = None;
    let mut received: Vec<u8> = Vec::new();
    let mut offset: usize = 0;
    let mut odd_turn = false;
    assert(wire@.take(0) =~= Seq::empty());
    assert(received@ =~= Seq::empty());
    while offset < wire.len()
        invariant
            read_most > 0,
            start == fresh_decoder(response_to_head, limits),
            offset <= wire@.len(),
            run(start, wire@.take(offset as int)) == (buffered, RunEnd::More),
            in_step(decoder@, buffered, received@, deliver),
            decoder@.output is AwaitHead <==> head is None,
            head matches Some(known) ==> {
                &&& buffered.status == Some(known@.status)
                &&& buffered.headers == known@.headers
            },
        decreases wire@.len() - offset, decoder@.response->0.queue.len(),
    {
        let fragment = next_fragment(schedule, odd_turn, wire.len() - offset);
        odd_turn = !odd_turn;
        let part = &wire[offset..offset + fragment];
        proof {
            lemma_next_fragment(start, buffered, wire@, offset as int, offset + fragment);
            if decoder@.output is AwaitHead {
                assert(received@ =~= Seq::empty());
                lemma_head_ingest_keeps_step(decoder@, buffered, deliver, part@);
            } else {
                lemma_ingest_keeps_step(decoder@, buffered, received@, deliver, part@);
            }
        }
        let progress = match decoder.ingest(part) {
            Ok(progress) => progress,
            Err(error) => {
                return FuzzDecodeOutcome::Failed(error);
            },
        };
        match progress {
            StreamDecodeProgress::Head { head: offered, consumed } => {
                proof {
                    assert(part@.take(consumed as int) =~= wire@.subrange(
                        offset as int,
                        offset + consumed,
                    ));
                    lemma_next_fragment(start, buffered, wire@, offset as int, offset + consumed);
                    buffered = run(buffered, part@.take(consumed as int)).0;
                }
                offset = offset + consumed;
                proof {
                    lemma_decision_keeps_step(decoder@, buffered, deliver);
                    assert(received@ =~= Seq::empty());
                }
                let decision = match decoder.decide_head(deliver) {
                    Ok(decision) => decision,
                    Err(error) => {
                        assert(false);
                        return FuzzDecodeOutcome::Failed(error);
                    },
                };
                if decision.complete {
                    finish_fuzz_stream_decoder(decoder, deliver);
                    let response = Response::new(offered.status, offered.headers, received);
                    return FuzzDecodeOutcome::Complete {
                        response,
                        consumed: offset,
                        permits_reuse: decision.permits_reuse,
                    };
                }
                head = Some(offered);
            },
            StreamDecodeProgress::Body { consumed, blocked } => {
                proof {
                    assert(part@.take(consumed as int) =~= wire@.subrange(
                        offset as int,
                        offset + consumed,
                    ));
                    lemma_next_fragment(start, buffered, wire@, offset as int, offset + consumed);
                    buffered = run(buffered, part@.take(consumed as int)).0;
                }
                offset = offset + consumed;
                if blocked {
                    read_some(&mut decoder, &mut received, read_most);
                }
            },
            StreamDecodeProgress::Complete { consumed, permits_reuse, .. } => {
                proof {
                    assert(part@.take(consumed as int) =~= wire@.subrange(
                        offset as int,
                        offset + consumed,
                    ));
                    lemma_next_fragment(start, buffered, wire@, offset as int, offset + consumed);
                }
                if deliver {
                    read_some(&mut decoder, &mut received, usize::MAX);
                    assert(received@ + decoder@.response->0.queue =~= received@);
                }
                finish_fuzz_stream_decoder(decoder, deliver);
                let (status, headers) = match head {
                    Some(head) => (head.status, head.headers),
                    None => {
                        assert(false);
                        (0, Vec::new())
                    },
                };
                let response = Response::new(status, headers, received);
                return FuzzDecodeOutcome::Complete {
                    response,
                    consumed: offset + consumed,
                    permits_reuse,
                };
            },
        }
    }
    assert(wire@.take(offset as int) =~= wire@);
    reveal(stream_eof);
    match decoder.eof() {
        Ok(ended) => {
            let permits_reuse = match ended {
                Some((permits_reuse, _)) => permits_reuse,
                None => false,
            };
            if deliver {
                read_some(&mut decoder, &mut received, usize::MAX);
                assert(received@ + decoder@.response->0.queue =~= received@);
            }
            finish_fuzz_stream_decoder(decoder, deliver);
            let (status, headers) = match head {
                Some(head) => (head.status, head.headers),
                None => {
                    assert(false);
                    (0, Vec::new())
                },
            };
            let response = Response::new(status, headers, received);
            FuzzDecodeOutcome::Eof { response: Some(response), permits_reuse }
        },
        Err(error) => FuzzDecodeOutcome::Failed(error),
    }
}

/// Gives up a decoder whose response is complete. A discarded response leaves its sink, which is
/// cancelled; a delivered one leaves nothing to do.
pub fn finish_fuzz_stream_decoder(decoder: StreamingResponseDecoder, delivered: bool) -> (result:
    Option<ResponseSink>)
    requires
        !delivered ==> {
            &&& decoder@.frame.state is Complete
            &&& decoder@.output is Discard
            &&& decoder@.response matches Some(sink) && sink_ok(sink)
        },
    ensures
        delivered ==> result is None,
        !delivered ==> (result matches Some(sink) && sink@ == sink_finish(
            decoder@.response->0,
            SinkEndView::Cancelled,
        )),
{
    if delivered {
        return None;
    }
    match decoder.into_response() {
        Ok(sink) => {
            let mut sink = sink;
            sink.cancel();
            Some(sink)
        },
        Err(_) => None,
    }
}

/// Decodes a fuzzed message with the streaming decoder. The first eight bytes select limits, the
/// capacity of the queue, an irregular schedule and the pace of the reader; the rest is the message.
pub fn fuzz_streaming_response_decoder(data: &[u8]) -> (result: Option<FuzzDecodeOutcome>)
    ensures
        result is None <==> data@.len() < 8,
        result matches Some(outcome) ==> outcome@ == observed(
            decoded(
                selected_wire(data@[0], data@.skip(8)),
                data@[0] & 1 != 0,
                selected_limits(data@[1], data@[2], data@[3]),
            ),
            data@[0] & 4 != 0,
        ),
{
    if data.len() < 8 {
        return None;
    }
    let encoded = &data[8..data.len()];
    assert(encoded@ =~= data@.skip(8));
    let wire = select_wire(data[0], encoded);
    let limits = select_limits(data[1], data[2], data[3]);
    let capacity = (data[4] % 64) as usize + 1;
    let wanted = (data[7] % 64) as usize + 1;
    let read_most = if wanted < capacity {
        wanted
    } else {
        capacity
    };
    Some(
        drive_stream(
            wire.as_slice(),
            data[0] & 1 != 0,
            limits,
            capacity,
            data[0] & 4 != 0,
            Schedule::Irregular { even: data[5], odd: data[6] },
            read_most,
        ),
    )
}

} // verus!
