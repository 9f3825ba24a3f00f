//! The decoder that delivers a response while it arrives.

use crate::chunk::{ends_with_blank_line, ends_with_crlf};
use crate::decoder::{
    chunk_within, is_crlf, metadata_limit, premature_end, read_chunk_size, section_limit,
};
use crate::fields::{http_error, response_body_exceeded, response_body_limit};
use crate::framing::{
    count_framing, end_head, frame_ok, frame_step, fresh_frame, keep_byte, lemma_frame_step_ok,
    within_limits, DecodeState, Frame, FrameEvent, MAX_INFORMATIONAL_RESPONSES,
};
use crate::head::{parse_response_head, validate_trailers, BodyFraming, ParsedHead};
use crate::stream::{
    head_view, sink_finish, sink_ok, sink_open, sink_push, sink_room, Refusal, ResponsePushError,
    ResponseSink, SinkEndView, SinkView,
};
use crate::types::{
    plain_error, transport_error, Error, ErrorKind, ErrorView, HttpLimits, ResponseHead,
    ResponseHeadView, TransportStage,
};
use vstd::prelude::*;
use vstd::string::*;

verus! {

/// What happens to body bytes.
#[derive(Clone, Copy, Debug, PartialEq, Eq, Structural)]
pub enum StreamOutput {
    AwaitHead,
    Deliver,
    Discard,
}

/// Decodes one response, delivering its body through a sink.
pub struct StreamingResponseDecoder {
    pub limits: HttpLimits,
    pub response_to_head: bool,
    pub state: DecodeState,
    pub scratch: Vec<u8>,
    pub pending_head: Option<ResponseHead>,
    pub output: StreamOutput,
    pub response: Option<ResponseSink>,
    pub body_bytes: usize,
    pub informational_responses: u8,
    pub framing_bytes: usize,
    pub permits_reuse: bool,
}

/// What a [`StreamingResponseDecoder`] holds.
#[verifier::ext_equal]
pub struct StreamView {
    pub frame: Frame,
    pub pending_head: Option<ResponseHeadView>,
    pub output: StreamOutput,
    pub response: Option<SinkView>,
}

/// What an optional sink holds.
pub open spec fn sink_view(sink: Option<ResponseSink>) -> Option<SinkView> {
    match sink {
        Some(sink) => Some(sink@),
        None => None,
    }
}

impl View for StreamingResponseDecoder {
    type V = StreamView;

    open spec fn view(&self) -> StreamView {
        StreamView {
            frame: Frame {
                limits: self.limits,
                response_to_head: self.response_to_head,
                state: self.state,
                scratch: self.scratch@,
                body_len: self.body_bytes as nat,
                informational: self.informational_responses,
                framing_bytes: self.framing_bytes as nat,
                permits_reuse: self.permits_reuse,
            },
            pending_head: head_view(self.pending_head),
            output: self.output,
            response: sink_view(self.response),
        }
    }
}

/// What one call of `ingest` achieved.
#[derive(Debug)]
pub enum StreamDecodeProgress {
    Head { head: ResponseHead, consumed: usize },
    Body { consumed: usize, blocked: bool },
    Complete { consumed: usize, permits_reuse: bool, delivered: bool },
}

/// What a decision about the final head led to.
#[derive(Clone, Copy, Debug, PartialEq, Eq, Structural)]
pub struct StreamHeadDecision {
    pub complete: bool,
    pub permits_reuse: bool,
}

/// What one byte brought about.
#[derive(Debug)]
pub enum StreamByteProgress {
    Continue,
    Head(ResponseHead),
    Complete,
}

/// Before the first byte.
pub open spec fn fresh_stream(
    response_to_head: bool,
    limits: HttpLimits,
    response: SinkView,
) -> StreamView {
    StreamView {
        frame: fresh_frame(response_to_head, limits),
        pending_head: None,
        output: StreamOutput::AwaitHead,
        response: Some(response),
    }
}

/// A state that a response without a violation can be in. What is not known before the head is
/// decided stays undecided, and delivery starts with a published head.
pub open spec fn stream_ok(stream: StreamView) -> bool {
    &&& frame_ok(stream.frame)
    &&& stream.response matches Some(sink) ==> sink_ok(sink)
    &&& stream.frame.state is Head <==> stream.output is AwaitHead && stream.pending_head is None
    &&& stream.pending_head is Some ==> stream.output is AwaitHead
    &&& stream.frame.state is Head ==> stream.frame.body_len == 0
}

/// Whether the next byte belongs to the body.
pub open spec fn awaits_body(state: DecodeState) -> bool {
    state is Fixed || state is CloseDelimited || state is ChunkData
}

/// How many body bytes may be taken before delivery blocks.
pub open spec fn stream_room(stream: StreamView) -> nat {
    match stream.output {
        StreamOutput::Deliver => match stream.response {
            Some(sink) => sink_room(sink),
            None => 0,
        },
        _ => usize::MAX as nat,
    }
}

/// What one byte does, apart from the sink.
pub open spec fn stream_step(stream: StreamView, byte: u8) -> (StreamView, FrameEvent) {
    let (frame, event) = frame_step(stream.frame, byte);
    match event {
        FrameEvent::Head { status, headers } => (
            StreamView { frame, pending_head: Some(ResponseHeadView { status, headers }), ..stream },
            event,
        ),
        _ => (StreamView { frame, ..stream }, event),
    }
}

/// Why a run over some bytes stopped.
#[verifier::ext_equal]
pub enum StreamStop {
    /// All bytes were taken and the response goes on.
    More,
    /// The next byte belongs to the body and the queue is full.
    Blocked,
    /// The final head is complete and has to be decided.
    Head(ResponseHeadView),
    /// The response is complete.
    Complete,
    /// The response is unacceptable.
    Failed(ErrorView),
}

/// A run over some bytes: where it stopped and why, the body bytes to deliver, and how many bytes it
/// took.
#[verifier::ext_equal]
pub struct StreamRun {
    pub next: StreamView,
    pub body: Seq<u8>,
    pub stop: StreamStop,
    pub consumed: nat,
}

/// The error for a byte behind the end of the response.
pub open spec fn spent_stream() -> ErrorView {
    transport_error(
        TransportStage::Http,
        "native streaming decoder advanced after completion"@,
    )
}

/// What a byte string does, apart from the sink, where `body` has been collected so far and `room`
/// body bytes may be collected in all.
pub open spec fn stream_run(
    stream: StreamView,
    bytes: Seq<u8>,
    room: nat,
    body: Seq<u8>,
) -> StreamRun
    decreases bytes.len(),
{
    if bytes.len() == 0 {
        StreamRun { next: stream, body, stop: StreamStop::More, consumed: 0 }
    } else if stream.output is Deliver && awaits_body(stream.frame.state) && body.len() == room {
        StreamRun { next: stream, body, stop: StreamStop::Blocked, consumed: 0 }
    } else {
        let (next, event) = stream_step(stream, bytes[0]);
        let collected = if event is Body && stream.output is Deliver {
            body.push(bytes[0])
        } else {
            body
        };
        match event {
            FrameEvent::Failed(error) => StreamRun {
                next,
                body: collected,
                stop: StreamStop::Failed(error),
                consumed: 1,
            },
            FrameEvent::Spent => StreamRun {
                next,
                body: collected,
                stop: StreamStop::Failed(spent_stream()),
                consumed: 1,
            },
            FrameEvent::Head { status, headers } => StreamRun {
                next,
                body: collected,
                stop: StreamStop::Head(ResponseHeadView { status, headers }),
                consumed: 1,
            },
            _ => if next.frame.state is Complete {
                StreamRun { next, body: collected, stop: StreamStop::Complete, consumed: 1 }
            } else {
                let rest = stream_run(next, bytes.skip(1), room, collected);
                StreamRun { consumed: rest.consumed + 1, ..rest }
            },
        }
    }
}

/// A run, seen from some bytes earlier.
pub open spec fn further(run: StreamRun, count: nat) -> StreamRun {
    StreamRun { consumed: run.consumed + count, ..run }
}

/// What a run does that ends with its first byte, or goes on behind it.
proof fn lemma_stream_run_step(
    stream: StreamView,
    bytes: Seq<u8>,
    at: int,
    room: nat,
    body: Seq<u8>,
)
    requires
        0 <= at < bytes.len(),
    ensures
        ({
            let run = stream_run(stream, bytes.skip(at), room, body);
            let (next, event) = stream_step(stream, bytes[at]);
            let collected = if event is Body && stream.output is Deliver {
                body.push(bytes[at])
            } else {
                body
            };
            if stream.output is Deliver && awaits_body(stream.frame.state) && body.len() == room {
                run == (StreamRun { next: stream, body, stop: StreamStop::Blocked, consumed: 0 })
            } else {
                match event {
                    FrameEvent::Failed(error) => run == (StreamRun {
                        next,
                        body: collected,
                        stop: StreamStop::Failed(error),
                        consumed: 1,
                    }),
                    FrameEvent::Spent => run == (StreamRun {
                        next,
                        body: collected,
                        stop: StreamStop::Failed(spent_stream()),
                        consumed: 1,
                    }),
                    FrameEvent::Head { status, headers } => run == (StreamRun {
                        next,
                        body: collected,
                        stop: StreamStop::Head(ResponseHeadView { status, headers }),
                        consumed: 1,
                    }),
                    _ => if next.frame.state is Complete {
                        run == (StreamRun {
                            next,
                            body: collected,
                            stop: StreamStop::Complete,
                            consumed: 1,
                        })
                    } else {
                        run == further(stream_run(next, bytes.skip(at + 1), room, collected), 1)
                    },
                }
            }
        }),
        stream_step(stream, bytes[at]).0.response == stream.response,
        stream_step(stream, bytes[at]).1 is Head || stream_step(stream, bytes[at]).0.pending_head
            == stream.pending_head,
{
    assert(bytes.skip(at)[0] == bytes[at]);
    assert(bytes.skip(at).skip(1) =~= bytes.skip(at + 1));
}

/// Why the decoder stopped taking bytes.
enum StreamHalt {
    More,
    Blocked,
    Head(ResponseHead),
    Complete,
    Failed(Error),
}

impl View for StreamHalt {
    type V = StreamStop;

    closed spec fn view(&self) -> StreamStop {
        match self {
            StreamHalt::More => StreamStop::More,
            StreamHalt::Blocked => StreamStop::Blocked,
            StreamHalt::Head(head) => StreamStop::Head(head@),
            StreamHalt::Complete => StreamStop::Complete,
            StreamHalt::Failed(error) => StreamStop::Failed(error@),
        }
    }
}

/// What becomes of collected body bytes.
pub open spec fn flushed(stream: StreamView, body: Seq<u8>) -> Result<StreamView, ErrorView> {
    if body.len() == 0 {
        Ok(stream)
    } else {
        match stream.response {
            None => Err(no_sink()),
            Some(sink) => match sink_push(sink, body) {
                Ok(sink) => Ok(StreamView { response: Some(sink), ..stream }),
                Err(Refusal::WouldBlock) => Err(
                    plain_error(
                        ErrorKind::Internal,
                        "streaming decoder exceeded the capacity it observed"@,
                    ),
                ),
                Err(Refusal::Closed) => Err(
                    transport_error(
                        TransportStage::Receive,
                        "the streaming response reader closed during delivery"@,
                    ),
                ),
                Err(Refusal::Protocol) => Err(
                    plain_error(
                        ErrorKind::Internal,
                        "streaming decoder delivered body before its final head"@,
                    ),
                ),
                Err(Refusal::Limit) => Err(
                    response_body_exceeded(stream.frame.limits.body_bytes as nat),
                ),
            },
        }
    }
}

/// The sink was taken away.
pub open spec fn no_sink() -> ErrorView {
    plain_error(
        ErrorKind::Internal,
        "native streaming decoder no longer owns its response sink"@,
    )
}

/// Marks the end of a response that is delivered; a discarded one leaves the sink alone.
pub open spec fn finished(stream: StreamView) -> Result<StreamView, ErrorView> {
    if !(stream.output is Deliver) {
        Ok(stream)
    } else {
        match stream.response {
            None => Err(no_sink()),
            Some(sink) => Ok(
                StreamView {
                    response: Some(sink_finish(sink, SinkEndView::Complete)),
                    ..stream
                },
            ),
        }
    }
}

/// What a [`StreamDecodeProgress`] says.
#[verifier::ext_equal]
pub enum StreamProgressView {
    Head { head: ResponseHeadView, consumed: nat },
    Body { consumed: nat, blocked: bool },
    Complete { consumed: nat, permits_reuse: bool, delivered: bool },
}

impl View for StreamDecodeProgress {
    type V = StreamProgressView;

    open spec fn view(&self) -> StreamProgressView {
        match self {
            StreamDecodeProgress::Head { head, consumed } => StreamProgressView::Head {
                head: head@,
                consumed: *consumed as nat,
            },
            StreamDecodeProgress::Body { consumed, blocked } => StreamProgressView::Body {
                consumed: *consumed as nat,
                blocked: *blocked,
            },
            StreamDecodeProgress::Complete { consumed, permits_reuse, delivered } =>
                StreamProgressView::Complete {
                consumed: *consumed as nat,
                permits_reuse: *permits_reuse,
                delivered: *delivered,
            },
        }
    }
}

/// What becomes of a run: collected body bytes are delivered first, then the end is marked. A run
/// that failed delivers nothing.
pub open spec fn run_outcome(run: StreamRun) -> (StreamView, Result<StreamProgressView, ErrorView>) {
    match run.stop {
        StreamStop::Failed(error) => (run.next, Err(error)),
        _ => match flushed(run.next, run.body) {
            Err(error) => (run.next, Err(error)),
            Ok(next) => match run.stop {
                StreamStop::Complete => match finished(next) {
                    Err(error) => (next, Err(error)),
                    Ok(last) => (
                        last,
                        Ok(
                            StreamProgressView::Complete {
                                consumed: run.consumed,
                                permits_reuse: next.frame.permits_reuse,
                                delivered: next.output is Deliver,
                            },
                        ),
                    ),
                },
                StreamStop::Head(head) => (
                    next,
                    Ok(StreamProgressView::Head { head, consumed: run.consumed }),
                ),
                stop => (
                    next,
                    Ok(
                        StreamProgressView::Body {
                            consumed: run.consumed,
                            blocked: stop is Blocked,
                        },
                    ),
                ),
            },
        },
    }
}

/// What bytes do to a streaming decoder.
#[verifier::opaque]
pub open spec fn stream_ingest(stream: StreamView, bytes: Seq<u8>) -> (StreamView, Result<
    StreamProgressView,
    ErrorView,
>) {
    if stream.frame.state is Complete {
        (
            stream,
            Err(
                transport_error(
                    TransportStage::Http,
                    "native streaming decoder received bytes after completion"@,
                ),
            ),
        )
    } else if stream.pending_head is Some {
        (
            stream,
            Err(
                plain_error(
                    ErrorKind::Internal,
                    "native streaming decoder advanced before its final head was decided"@,
                ),
            ),
        )
    } else {
        run_outcome(stream_run(stream, bytes, stream_room(stream), Seq::empty()))
    }
}

/// What deciding the final head does: a delivered head is published, a discarded one is dropped.
#[verifier::opaque]
pub open spec fn head_decided(stream: StreamView, deliver: bool) -> (StreamView, Result<
    StreamHeadDecision,
    ErrorView,
>) {
    match stream.pending_head {
        None => (
            stream,
            Err(
                plain_error(
                    ErrorKind::Internal,
                    "native streaming decoder has no final head to decide"@,
                ),
            ),
        ),
        Some(head) => {
            let decided = StreamView {
                pending_head: None,
                output: if deliver {
                    StreamOutput::Deliver
                } else {
                    StreamOutput::Discard
                },
                ..stream
            };
            let complete = stream.frame.state is Complete;
            let decision = StreamHeadDecision { complete, permits_reuse: stream.frame.permits_reuse };
            if !deliver {
                (decided, Ok(decision))
            } else {
                match stream.response {
                    None => (decided, Err(no_sink())),
                    Some(sink) => if sink_open(sink) {
                        (
                            StreamView {
                                response: Some(
                                    SinkView {
                                        head: Some(head),
                                        end: if complete {
                                            Some(SinkEndView::Complete)
                                        } else {
                                            None
                                        },
                                        ..sink
                                    },
                                ),
                                ..decided
                            },
                            Ok(decision),
                        )
                    } else {
                        (
                            decided,
                            Err(
                                transport_error(
                                    TransportStage::Receive,
                                    "the streaming response reader closed before head publication"@,
                                ),
                            ),
                        )
                    },
                }
            }
        },
    }
}

/// What the end of the stream does: it ends a close-delimited body and nothing else. A response
/// that ends here reports whether it permits reuse and whether it was delivered.
#[verifier::opaque]
pub open spec fn stream_eof(stream: StreamView) -> (StreamView, Result<
    Option<(bool, bool)>,
    ErrorView,
>) {
    if stream.pending_head is Some {
        (
            stream,
            Err(
                plain_error(
                    ErrorKind::Internal,
                    "native streaming response reached EOF before its final head was decided"@,
                ),
            ),
        )
    } else {
        match premature_end(stream.frame.state) {
            Some(error) => (stream, Err(error)),
            None => if stream.frame.state is Complete {
                (stream, Ok(None))
            } else {
                let ended = StreamView {
                    frame: Frame { state: DecodeState::Complete, ..stream.frame },
                    ..stream
                };
                match finished(ended) {
                    Err(error) => (ended, Err(error)),
                    Ok(last) => (
                        last,
                        Ok(Some((stream.frame.permits_reuse, stream.output is Deliver))),
                    ),
                }
            },
        }
    }
}

/// How many bytes may be read from the socket.
pub open spec fn socket_room(stream: StreamView) -> nat {
    if stream.pending_head is Some {
        0
    } else {
        match stream.output {
            StreamOutput::Deliver => stream_room(stream),
            _ => 16384,
        }
    }
}

/// `stream_step` keeps what `stream_ok` says.
pub proof fn lemma_stream_step_ok(stream: StreamView, byte: u8)
    requires
        stream_ok(stream),
        stream.pending_head is None,
    ensures
        within_limits(stream_step(stream, byte).0.frame),
        !crate::framing::is_failure(stream_step(stream, byte).1) ==> stream_ok(
            stream_step(stream, byte).0,
        ),
{
    lemma_frame_step_ok(stream.frame, byte);
}

impl StreamingResponseDecoder {
    pub open spec fn wf(&self) -> bool {
        stream_ok(self@)
    }

    pub fn new(response_to_head: bool, limits: HttpLimits, response: ResponseSink) -> (result: Self)
        requires
            response.wf(),
        ensures
            result@ == fresh_stream(response_to_head, limits, response@),
            result.wf(),
    {
        StreamingResponseDecoder {
            limits,
            response_to_head,
            state: DecodeState::Head,
            scratch: Vec::new(),
            pending_head: None,
            output: StreamOutput::AwaitHead,
            response: Some(response),
            body_bytes: 0,
            informational_responses: 0,
            framing_bytes: 0,
            permits_reuse: false,
        }
    }

    /// Takes one more byte of a head, chunk-size line or trailer section.
    pub fn push_stream_scratch(&mut self, byte: u8, context: &str, framing: bool) -> (result:
        Result<(), Error>)
        ensures
            match result {
                Ok(_) => keep_byte(old(self)@.frame, byte, context@, framing) == Ok::<
                    Frame,
                    ErrorView,
                >(final(self)@.frame) && final(self)@ == (StreamView {
                    frame: final(self)@.frame,
                    ..old(self)@
                }),
                Err(error) => keep_byte(old(self)@.frame, byte, context@, framing) == Err::<
                    Frame,
                    ErrorView,
                >(error@) && final(self)@ == old(self)@,
            },
    {
        if self.scratch.len() >= self.limits.header_bytes {
            return Err(section_limit(context, self.limits.header_bytes));
        }
        if framing {
            self.count_stream_framing_byte(context)?;
        }
        self.scratch.push(byte);
        Ok(())
    }

    /// Counts one more framing byte between body bytes.
    pub fn count_stream_framing_byte(&mut self, context: &str) -> (result: Result<(), Error>)
        ensures
            match result {
                Ok(_) => count_framing(old(self)@.frame, context@) == Ok::<Frame, ErrorView>(
                    final(self)@.frame,
                ) && final(self)@ == (StreamView { frame: final(self)@.frame, ..old(self)@ }),
                Err(error) => count_framing(old(self)@.frame, context@) == Err::<Frame, ErrorView>(
                    error@,
                ) && final(self)@ == old(self)@,
            },
    {
        if self.framing_bytes >= self.limits.header_bytes {
            return Err(metadata_limit(context, self.limits.header_bytes));
        }
        self.framing_bytes = self.framing_bytes + 1;
        Ok(())
    }

    /// Takes one more body byte; it is collected only where the body is delivered.
    pub fn push_stream_body(&mut self, byte: u8, body: &mut Vec<u8>) -> (result: Result<(), Error>)
        ensures
            match result {
                Ok(_) => {
                    &&& old(self).body_bytes < old(self).limits.body_bytes
                    &&& final(self)@ == (StreamView {
                        frame: Frame {
                            body_len: old(self)@.frame.body_len + 1,
                            ..old(self)@.frame
                        },
                        ..old(self)@
                    })
                    &&& final(body)@ == if old(self)@.output is Deliver {
                        old(body)@.push(byte)
                    } else {
                        old(body)@
                    }
                },
                Err(error) => {
                    &&& old(self).body_bytes >= old(self).limits.body_bytes
                    &&& error@ == response_body_exceeded(old(self).limits.body_bytes as nat)
                    &&& final(self)@ == old(self)@
                    &&& final(body)@ == old(body)@
                },
            },
    {
        if self.body_bytes >= self.limits.body_bytes {
            return Err(response_body_limit(self.limits.body_bytes));
        }
        self.body_bytes = self.body_bytes + 1;
        if let StreamOutput::Deliver = self.output {
            body.push(byte);
        }
        Ok(())
    }

    /// Reports whether the next byte belongs to the body.
    pub fn next_byte_is_body(&self) -> (result: bool)
        ensures
            result == awaits_body(self@.frame.state),
    {
        match self.state {
            DecodeState::Fixed { .. }
            | DecodeState::CloseDelimited
            | DecodeState::ChunkData { .. } => true,
            _ => false,
        }
    }

    /// Takes one byte; a body byte that is delivered is added to `body`.
    #[verifier::rlimit(60)]
    pub fn consume_stream_byte(&mut self, byte: u8, body: &mut Vec<u8>) -> (result: Result<
        StreamByteProgress,
        Error,
    >)
        requires
            old(self).wf(),
            old(self)@.pending_head is None,
        ensures
            final(self)@ == stream_step(old(self)@, byte).0,
            final(body)@ == if stream_step(old(self)@, byte).1 is Body
                && old(self)@.output is Deliver {
                old(body)@.push(byte)
            } else {
                old(body)@
            },
            match stream_step(old(self)@, byte).1 {
                FrameEvent::Failed(failure) => result matches Err(error) && error@ == failure,
                FrameEvent::Spent => result matches Err(error) && error@ == spent_stream(),
                FrameEvent::Head { status, headers } => result matches Ok(
                    StreamByteProgress::Head(head),
                ) && head@ == (ResponseHeadView { status, headers }),
                _ => if final(self)@.frame.state is Complete {
                    result matches Ok(StreamByteProgress::Complete)
                } else {
                    result matches Ok(StreamByteProgress::Continue)
                },
            },
            result is Ok ==> final(self).wf(),
            within_limits(final(self)@.frame),
    {
        proof {
            lemma_stream_step_ok(self@, byte);
        }
        match self.state {
            DecodeState::Head => {
                self.push_stream_scratch(byte, "response head", false)?;
                if ends_with_blank_line(self.scratch.as_slice()) {
                    return self.finish_stream_head();
                }
            },
            DecodeState::Fixed { remaining } => {
                self.push_stream_body(byte, body)?;
                if remaining == 1 {
                    self.state = DecodeState::Complete;
                    return Ok(StreamByteProgress::Complete);
                }
                self.state = DecodeState::Fixed { remaining: remaining - 1 };
            },
            DecodeState::CloseDelimited => {
                self.push_stream_body(byte, body)?;
            },
            DecodeState::ChunkSize => {
                let ghost before = self.scratch@;
                self.push_stream_scratch(byte, "chunk-size line", true)?;
                if ends_with_crlf(self.scratch.as_slice()) {
                    assert(self.scratch@.drop_last() =~= before);
                    let size = read_chunk_size(self.scratch.as_slice())?;
                    self.scratch.clear();
                    let size = match chunk_within(size, self.body_bytes, self.limits.body_bytes) {
                        Some(size) => size,
                        None => {
                            return Err(response_body_limit(self.limits.body_bytes));
                        },
                    };
                    self.state = if size == 0 {
                        DecodeState::Trailers
                    } else {
                        DecodeState::ChunkData { remaining: size }
                    };
                }
            },
            DecodeState::ChunkData { remaining } => {
                self.push_stream_body(byte, body)?;
                self.state = if remaining == 1 {
                    DecodeState::ChunkEnd { matched: 0 }
                } else {
                    DecodeState::ChunkData { remaining: remaining - 1 }
                };
            },
            DecodeState::ChunkEnd { matched } => {
                if matched == 0 && byte == 0x0d {
                    self.count_stream_framing_byte("chunk terminator")?;
                    self.state = DecodeState::ChunkEnd { matched: 1 };
                } else if matched == 1 && byte == 0x0a {
                    self.count_stream_framing_byte("chunk terminator")?;
                    self.state = DecodeState::ChunkSize;
                } else {
                    return Err(http_error("response chunk data is not followed by CRLF"));
                }
            },
            DecodeState::Trailers => {
                self.push_stream_scratch(byte, "response trailers", true)?;
                if is_crlf(self.scratch.as_slice()) || ends_with_blank_line(
                    self.scratch.as_slice(),
                ) {
                    validate_trailers(self.scratch.as_slice(), self.limits)?;
                    self.scratch.clear();
                    self.state = DecodeState::Complete;
                    return Ok(StreamByteProgress::Complete);
                }
            },
            DecodeState::Complete => {
                return Err(
                    Error::transport(
                        TransportStage::Http,
                        "native streaming decoder advanced after completion",
                    ),
                );
            },
        }
        Ok(StreamByteProgress::Continue)
    }

    /// Takes the head that is complete in the scratch buffer.
    fn finish_stream_head(&mut self) -> (result: Result<StreamByteProgress, Error>)
        ensures
            match end_head(old(self)@.frame) {
                (frame, FrameEvent::Failed(failure)) => {
                    &&& result matches Err(error) && error@ == failure
                    &&& final(self)@ == (StreamView { frame, ..old(self)@ })
                },
                (frame, FrameEvent::Head { status, headers }) => {
                    &&& result matches Ok(StreamByteProgress::Head(head))
                    &&& head@ == (ResponseHeadView { status, headers })
                    &&& final(self)@ == (StreamView {
                        frame,
                        pending_head: Some(head@),
                        ..old(self)@
                    })
                },
                (frame, _) => {
                    &&& result matches Ok(StreamByteProgress::Continue)
                    &&& final(self)@ == (StreamView { frame, ..old(self)@ })
                },
            },
    {
        let parsed = parse_response_head(
            self.scratch.as_slice(),
            self.response_to_head,
            self.limits,
        )?;
        self.scratch.clear();
        match parsed {
            ParsedHead::Informational => {
                if self.informational_responses == u8::MAX {
                    return Err(http_error("too many informational responses"));
                }
                self.informational_responses = self.informational_responses + 1;
                if self.informational_responses > MAX_INFORMATIONAL_RESPONSES {
                    return Err(http_error("too many informational responses"));
                }
                Ok(StreamByteProgress::Continue)
            },
            ParsedHead::Final { status, headers, framing, permits_reuse } => {
                self.permits_reuse = permits_reuse;
                self.state = match framing {
                    BodyFraming::NoBody => DecodeState::Complete,
                    BodyFraming::Fixed(length) => if length == 0 {
                        DecodeState::Complete
                    } else {
                        DecodeState::Fixed { remaining: length }
                    },
                    BodyFraming::Chunked => DecodeState::ChunkSize,
                    BodyFraming::CloseDelimited => DecodeState::CloseDelimited,
                };
                let head = ResponseHead::new(status, headers);
                self.pending_head = Some(head.clone());
                Ok(StreamByteProgress::Head(head))
            },
        }
    }

    /// The sink that the response is delivered to.
    pub fn response_mut(&mut self) -> (result: Result<&mut ResponseSink, Error>)
        ensures
            match result {
                Ok(sink) => old(self).response == Some(*sink) && *final(self) == (
                StreamingResponseDecoder { response: Some(*final(sink)), ..*old(self) }),
                Err(error) => old(self).response is None && error@ == no_sink() && *final(self)
                    == *old(self),
            },
    {
        match &mut self.response {
            Some(sink) => Ok(sink),
            None => Err(
                Error::new(
                    ErrorKind::Internal,
                    "native streaming decoder no longer owns its response sink",
                ),
            ),
        }
    }

    /// Delivers collected body bytes.
    pub fn flush_body(&mut self, body: Vec<u8>) -> (result: Result<(), Error>)
        requires
            old(self)@.response matches Some(sink) ==> sink_ok(sink),
        ensures
            match result {
                Ok(_) => flushed(old(self)@, body@) == Ok::<StreamView, ErrorView>(final(self)@),
                Err(error) => flushed(old(self)@, body@) == Err::<StreamView, ErrorView>(error@)
                    && final(self)@ == old(self)@,
            },
            final(self)@.response matches Some(sink) ==> sink_ok(sink),
    {
        if body.len() == 0 {
            return Ok(());
        }
        let limit = self.limits.body_bytes;
        let sink = self.response_mut()?;
        match sink.try_push(body) {
            Ok(_) => Ok(()),
            Err(ResponsePushError::WouldBlock(_)) => Err(
                Error::new(
                    ErrorKind::Internal,
                    "streaming decoder exceeded the capacity it observed",
                ),
            ),
            Err(ResponsePushError::Closed(_)) => Err(
                Error::transport(
                    TransportStage::Receive,
                    "the streaming response reader closed during delivery",
                ),
            ),
            Err(ResponsePushError::Protocol(_)) => Err(
                Error::new(
                    ErrorKind::Internal,
                    "streaming decoder delivered body before its final head",
                ),
            ),
            Err(ResponsePushError::Limit(_)) => Err(response_body_limit(limit)),
        }
    }

    /// Marks the end of a response that is delivered.
    fn finish_delivery(&mut self) -> (result: Result<bool, Error>)
        requires
            old(self)@.response matches Some(sink) ==> sink_ok(sink),
        ensures
            match result {
                Ok(delivered) => finished(old(self)@) == Ok::<StreamView, ErrorView>(final(self)@)
                    && delivered == (old(self)@.output is Deliver),
                Err(error) => finished(old(self)@) == Err::<StreamView, ErrorView>(error@)
                    && final(self)@ == old(self)@,
            },
            final(self)@.response matches Some(sink) ==> sink_ok(sink),
    {
        if let StreamOutput::Deliver = self.output {
            let sink = self.response_mut()?;
            sink.complete();
            Ok(true)
        } else {
            Ok(false)
        }
    }

    /// How many body bytes may be taken before delivery blocks.
    fn delivery_room(&self) -> (result: usize)
        requires
            self@.response matches Some(sink) ==> sink_ok(sink),
        ensures
            result == stream_room(self@),
    {
        match self.output {
            StreamOutput::Deliver => match &self.response {
                Some(sink) => sink.available_capacity(),
                None => 0,
            },
            _ => usize::MAX,
        }
    }

    /// Takes bytes until they run out, the queue is full, the final head is there to be decided, the
    /// response ends or it turns out to be unacceptable.
    pub fn ingest(&mut self, bytes: &[u8]) -> (result: Result<StreamDecodeProgress, Error>)
        requires
            old(self).wf(),
        ensures
            match result {
                Ok(progress) => stream_ingest(old(self)@, bytes@) == (
                    final(self)@,
                    Ok::<StreamProgressView, ErrorView>(progress@),
                ),
                Err(error) => stream_ingest(old(self)@, bytes@) == (
                    final(self)@,
                    Err::<StreamProgressView, ErrorView>(error@),
                ),
            },
            result is Ok ==> final(self).wf(),
            within_limits(final(self)@.frame),
            final(self)@.response matches Some(sink) ==> sink_ok(sink),
    {
        reveal(stream_ingest);
        if let DecodeState::Complete = self.state {
            return Err(
                Error::transport(
                    TransportStage::Http,
                    "native streaming decoder received bytes after completion",
                ),
            );
        }
        if self.pending_head.is_some() {
            return Err(
                Error::new(
                    ErrorKind::Internal,
                    "native streaming decoder advanced before its final head was decided",
                ),
            );
        }
        let available = self.delivery_room();
        let (halt, body, consumed) = self.take_bytes(bytes, available);
        match halt {
            StreamHalt::Failed(error) => Err(error),
            StreamHalt::More => {
                self.flush_body(body)?;
                Ok(StreamDecodeProgress::Body { consumed, blocked: false })
            },
            StreamHalt::Blocked => {
                self.flush_body(body)?;
                Ok(StreamDecodeProgress::Body { consumed, blocked: true })
            },
            StreamHalt::Head(head) => {
                self.flush_body(body)?;
                Ok(StreamDecodeProgress::Head { head, consumed })
            },
            StreamHalt::Complete => {
                self.flush_body(body)?;
                let delivered = self.finish_delivery()?;
                Ok(
                    StreamDecodeProgress::Complete {
                        consumed,
                        permits_reuse: self.permits_reuse,
                        delivered,
                    },
                )
            },
        }
    }

    /// Takes bytes until something has to be done about them, and collects those of the body that are
    /// to be delivered.
    fn take_bytes(&mut self, bytes: &[u8], room: usize) -> (result: (StreamHalt, Vec<u8>, usize))
        requires
            old(self).wf(),
            old(self)@.pending_head is None,
        ensures
            stream_run(old(self)@, bytes@, room as nat, Seq::empty()) == (StreamRun {
                next: final(self)@,
                body: result.1@,
                stop: result.0@,
                consumed: result.2 as nat,
            }),
            !(result.0 is Failed) ==> final(self).wf(),
            within_limits(final(self)@.frame),
            final(self)@.response == old(self)@.response,
            result.0 is More ==> result.2 == bytes@.len(),
    {
        let ghost start = self@;
        let mut body: Vec<u8> = Vec::new();
        let mut index: usize = 0;
        assert(bytes@.skip(0) =~= bytes@);
        while index < bytes.len()
            invariant
                self.wf(),
                start == old(self)@,
                self@.pending_head is None,
                self@.response == start.response,
                index <= bytes@.len(),
                stream_run(start, bytes@, room as nat, Seq::empty()) == further(
                    stream_run(self@, bytes@.skip(index as int), room as nat, body@),
                    index as nat,
                ),
            decreases bytes@.len() - index,
        {
            proof {
                lemma_stream_run_step(self@, bytes@, index as int, room as nat, body@);
            }
            let delivering = match self.output {
                StreamOutput::Deliver => true,
                _ => false,
            };
            if delivering && self.next_byte_is_body() && body.len() == room {
                return (StreamHalt::Blocked, body, index);
            }
            match self.consume_stream_byte(bytes[index], &mut body) {
                Err(error) => {
                    return (StreamHalt::Failed(error), body, index + 1);
                },
                Ok(StreamByteProgress::Head(head)) => {
                    return (StreamHalt::Head(head), body, index + 1);
                },
                Ok(StreamByteProgress::Complete) => {
                    return (StreamHalt::Complete, body, index + 1);
                },
                Ok(StreamByteProgress::Continue) => {},
            }
            index += 1;
        }
        assert(bytes@.skip(index as int) =~= Seq::empty());
        (StreamHalt::More, body, index)
    }

    /// Decides whether the response with the final head that just arrived is delivered.
    pub fn decide_head(&mut self, deliver: bool) -> (result: Result<StreamHeadDecision, Error>)
        requires
            old(self).wf(),
        ensures
            match result {
                Ok(decision) => head_decided(old(self)@, deliver) == (
                    final(self)@,
                    Ok::<StreamHeadDecision, ErrorView>(decision),
                ),
                Err(error) => head_decided(old(self)@, deliver) == (
                    final(self)@,
                    Err::<StreamHeadDecision, ErrorView>(error@),
                ),
            },
            final(self).wf(),
    {
        reveal(head_decided);
        let head = match self.pending_head.take() {
            Some(head) => head,
            None => {
                return Err(
                    Error::new(
                        ErrorKind::Internal,
                        "native streaming decoder has no final head to decide",
                    ),
                );
            },
        };
        self.output = if deliver {
            StreamOutput::Deliver
        } else {
            StreamOutput::Discard
        };
        let complete = match self.state {
            DecodeState::Complete => true,
            _ => false,
        };
        if deliver {
            let sink = self.response_mut()?;
            if !sink.publish_head(head, complete) {
                return Err(
                    Error::transport(
                        TransportStage::Receive,
                        "the streaming response reader closed before head publication",
                    ),
                );
            }
        }
        Ok(StreamHeadDecision { complete, permits_reuse: self.permits_reuse })
    }

    /// Takes the end of the stream.
    pub fn eof(&mut self) -> (result: Result<Option<(bool, bool)>, Error>)
        requires
            old(self).wf(),
        ensures
            match result {
                Ok(ended) => stream_eof(old(self)@) == (
                    final(self)@,
                    Ok::<Option<(bool, bool)>, ErrorView>(ended),
                ),
                Err(error) => stream_eof(old(self)@) == (
                    final(self)@,
                    Err::<Option<(bool, bool)>, ErrorView>(error@),
                ),
            },
            final(self).wf(),
    {
        reveal(stream_eof);
        if self.pending_head.is_some() {
            return Err(
                Error::new(
                    ErrorKind::Internal,
                    "native streaming response reached EOF before its final head was decided",
                ),
            );
        }
        match self.state {
            DecodeState::CloseDelimited => {
                self.state = DecodeState::Complete;
                let delivered = self.finish_delivery()?;
                Ok(Some((self.permits_reuse, delivered)))
            },
            DecodeState::Complete => Ok(None),
            DecodeState::Head => Err(
                Error::transport(
                    TransportStage::Receive,
                    "the peer closed before a complete HTTP response head arrived",
                ),
            ),
            DecodeState::Fixed { .. } => Err(
                Error::transport(
                    TransportStage::Receive,
                    "the peer closed before the Content-Length body completed",
                ),
            ),
            DecodeState::ChunkSize
            | DecodeState::ChunkData { .. }
            | DecodeState::ChunkEnd { .. }
            | DecodeState::Trailers => Err(
                http_error("the peer closed before the chunked response completed"),
            ),
        }
    }

    /// Ends delivery with an error.
    pub fn fail(&mut self, error: Error)
        requires
            old(self)@.response matches Some(sink) ==> sink_ok(sink),
        ensures
            final(self)@ == (StreamView {
                response: match old(self)@.response {
                    Some(sink) => Some(sink_finish(sink, SinkEndView::Failed(error@))),
                    None => None,
                },
                ..old(self)@
            }),
            old(self).wf() ==> final(self).wf(),
    {
        if let Some(sink) = &mut self.response {
            sink.fail(error);
        }
    }

    /// How many bytes may be read from the socket: none while a head waits for its decision, and no
    /// more than the queue takes while the body is delivered.
    pub fn socket_capacity(&self) -> (result: usize)
        requires
            self@.response matches Some(sink) ==> sink_ok(sink),
        ensures
            result == socket_room(self@),
    {
        if self.pending_head.is_some() {
            return 0;
        }
        match self.output {
            StreamOutput::AwaitHead => 16 * 1024,
            StreamOutput::Discard => 16 * 1024,
            StreamOutput::Deliver => self.delivery_room(),
        }
    }

    /// Reports whether delivery waits for the reader.
    pub fn is_consumer_blocked(&self) -> (result: bool)
        requires
            self@.response matches Some(sink) ==> sink_ok(sink),
        ensures
            result == (self@.output is Deliver && socket_room(self@) == 0),
    {
        match self.output {
            StreamOutput::Deliver => self.socket_capacity() == 0,
            _ => false,
        }
    }

    /// Gives up the decoder for the sink of a response that was discarded to its end.
    pub fn into_response(self) -> (result: Result<ResponseSink, Error>)
        ensures
            match result {
                Ok(sink) => self@.frame.state is Complete && self@.output is Discard
                    && self@.response == Some(sink@),
                Err(error) => error@ == refused_transfer(self@) && !(self@.frame.state is Complete
                    && self@.output is Discard && self@.response is Some),
            },
    {
        let mut decoder = self;
        decoder.take_response()
    }

    /// Takes the sink of a response that was discarded to its end.
    pub fn take_response(&mut self) -> (result: Result<ResponseSink, Error>)
        ensures
            match result {
                Ok(sink) => {
                    &&& old(self)@.frame.state is Complete
                    &&& old(self)@.output is Discard
                    &&& old(self).response == Some(sink)
                    &&& final(self)@ == (StreamView { response: None, ..old(self)@ })
                },
                Err(error) => {
                    &&& error@ == refused_transfer(old(self)@)
                    &&& !(old(self)@.frame.state is Complete && old(self)@.output is Discard
                        && old(self)@.response is Some)
                    &&& final(self)@ == old(self)@
                },
            },
    {
        let complete = match self.state {
            DecodeState::Complete => true,
            _ => false,
        };
        let discarded = match self.output {
            StreamOutput::Discard => true,
            _ => false,
        };
        if !complete || !discarded {
            return Err(
                Error::new(
                    ErrorKind::Internal,
                    "only a completely discarded streaming response can transfer its sink",
                ),
            );
        }
        match self.response.take() {
            Some(sink) => Ok(sink),
            None => Err(
                Error::new(
                    ErrorKind::Internal,
                    "native streaming decoder response sink was already taken",
                ),
            ),
        }
    }
}

/// Why a sink cannot be taken.
pub open spec fn refused_transfer(stream: StreamView) -> ErrorView {
    if !(stream.frame.state is Complete) || !(stream.output is Discard) {
        plain_error(
            ErrorKind::Internal,
            "only a completely discarded streaming response can transfer its sink"@,
        )
    } else {
        plain_error(
            ErrorKind::Internal,
            "native streaming decoder response sink was already taken"@,
        )
    }
}

} // verus!
