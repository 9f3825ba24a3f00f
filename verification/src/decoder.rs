//! The decoder that holds a whole response in memory.

use crate::chunk::{
    chunk_line_size, crlf, ends_with, ends_with_blank_line, ends_with_crlf, parse_chunk_size_line,
    ChunkSizeLine,
};
use crate::fields::{http_error, http_failure, response_body_exceeded, response_body_limit};
use crate::framing::{
    count_framing, end_head, fresh_frame, frame_ok, frame_step, has_crlf, keep_byte, lemma_frame_step_ok,
    within_limits, DecodeState, Frame, FrameEvent, MAX_INFORMATIONAL_RESPONSES,
};
use crate::head::{parse_response_head, validate_trailers, BodyFraming, ParsedHead};
use crate::text::counted_text;
use crate::types::{
    header_views, plain_error, transport_error, Error, ErrorKind, ErrorView, Header, HeaderView,
    HttpLimits, LimitKind, Response, ResponseView, TransportStage,
};
use vstd::prelude::*;
use vstd::string::*;

verus! {

/// Decodes one response, holding its body until it is complete.
pub struct ResponseDecoder {
    pub limits: HttpLimits,
    pub response_to_head: bool,
    pub state: DecodeState,
    pub scratch: Vec<u8>,
    pub status: Option<u16>,
    pub headers: Vec<Header>,
    pub body: Vec<u8>,
    pub informational_responses: u8,
    pub framing_bytes: usize,
    pub permits_reuse: bool,
}

/// What a [`ResponseDecoder`] holds.
#[verifier::ext_equal]
pub struct DecoderView {
    pub frame: Frame,
    pub status: Option<u16>,
    pub headers: Seq<HeaderView>,
    pub body: Seq<u8>,
}

impl View for ResponseDecoder {
    type V = DecoderView;

    open spec fn view(&self) -> DecoderView {
        DecoderView {
            frame: Frame {
                limits: self.limits,
                response_to_head: self.response_to_head,
                state: self.state,
                scratch: self.scratch@,
                body_len: self.body@.len(),
                informational: self.informational_responses,
                framing_bytes: self.framing_bytes as nat,
                permits_reuse: self.permits_reuse,
            },
            status: self.status,
            headers: header_views(self.headers@),
            body: self.body@,
        }
    }
}

/// What one call of `ingest` achieved.
#[derive(Debug)]
pub struct DecodeProgress {
    pub response: Option<Response>,
    pub consumed: usize,
    pub permits_reuse: bool,
}

/// Before the first byte.
pub open spec fn fresh_decoder(response_to_head: bool, limits: HttpLimits) -> DecoderView {
    DecoderView {
        frame: fresh_frame(response_to_head, limits),
        status: None,
        headers: Seq::empty(),
        body: Seq::empty(),
    }
}

/// A state that a response without a violation can be in: a final head was seen unless heads are
/// still being read or the response was handed over.
pub open spec fn decoder_ok(decoder: DecoderView) -> bool {
    &&& frame_ok(decoder.frame)
    &&& decoder.frame.body_len == decoder.body.len()
    &&& decoder.status is None <==> (decoder.frame.state is Head || decoder.frame.state is Complete)
    &&& decoder.frame.state is Head ==> decoder.body.len() == 0
}

/// Hands over the response, leaving the decoder complete and empty.
pub open spec fn hand_over(decoder: DecoderView) -> (DecoderView, Result<
    Option<ResponseView>,
    ErrorView,
>) {
    (
        DecoderView {
            frame: Frame { state: DecodeState::Complete, body_len: 0, ..decoder.frame },
            status: None,
            headers: Seq::empty(),
            body: Seq::empty(),
        },
        Ok(
            Some(
                ResponseView {
                    status: decoder.status->0,
                    headers: decoder.headers,
                    body: decoder.body,
                },
            ),
        ),
    )
}

/// Hands over the response where its framing has ended.
pub open spec fn settle(decoder: DecoderView) -> (DecoderView, Result<
    Option<ResponseView>,
    ErrorView,
>) {
    if decoder.frame.state is Complete {
        hand_over(decoder)
    } else {
        (decoder, Ok(None))
    }
}

/// What one byte does to the decoder.
pub open spec fn decoder_step(decoder: DecoderView, byte: u8) -> (DecoderView, Result<
    Option<ResponseView>,
    ErrorView,
>) {
    let (frame, event) = frame_step(decoder.frame, byte);
    match event {
        FrameEvent::Failed(error) => (DecoderView { frame, ..decoder }, Err(error)),
        FrameEvent::Spent => (
            decoder,
            Err(plain_error(ErrorKind::Internal, "native HTTP decoder advanced after completion"@)),
        ),
        FrameEvent::Quiet => (DecoderView { frame, ..decoder }, Ok(None)),
        FrameEvent::Head { status, headers } => settle(
            DecoderView { frame, status: Some(status), headers, ..decoder },
        ),
        FrameEvent::Body => settle(
            DecoderView { frame, body: decoder.body.push(byte), ..decoder },
        ),
        FrameEvent::End => settle(DecoderView { frame, ..decoder }),
    }
}

/// Why the end of the stream is premature in a given state, if it is.
pub open spec fn premature_end(state: DecodeState) -> Option<ErrorView> {
    match state {
        DecodeState::CloseDelimited | DecodeState::Complete => None,
        DecodeState::Head => Some(
            transport_error(
                TransportStage::Receive,
                "the peer closed before a complete HTTP response head arrived"@,
            ),
        ),
        DecodeState::Fixed { .. } => Some(
            transport_error(
                TransportStage::Receive,
                "the peer closed before the Content-Length body completed"@,
            ),
        ),
        _ => Some(http_failure("the peer closed before the chunked response completed"@)),
    }
}

/// What the end of the stream does to the decoder.
pub open spec fn eof_outcome(decoder: DecoderView) -> (DecoderView, Result<
    Option<ResponseView>,
    ErrorView,
>) {
    match premature_end(decoder.frame.state) {
        Some(error) => (decoder, Err(error)),
        None => if decoder.frame.state is Complete {
            (decoder, Ok(None))
        } else {
            hand_over(decoder)
        },
    }
}

/// Where a run over some bytes stopped.
#[verifier::ext_equal]
pub enum RunEnd {
    /// All bytes were taken and the response goes on.
    More,
    /// The response ended behind the first `consumed` bytes.
    Done { response: ResponseView, consumed: nat },
    /// The response is unacceptable.
    Failed(ErrorView),
}

/// What a byte string does to the decoder.
pub open spec fn run(decoder: DecoderView, bytes: Seq<u8>) -> (DecoderView, RunEnd)
    decreases bytes.len(),
{
    if bytes.len() == 0 {
        (decoder, RunEnd::More)
    } else {
        let (next, outcome) = decoder_step(decoder, bytes[0]);
        match outcome {
            Err(error) => (next, RunEnd::Failed(error)),
            Ok(Some(response)) => (next, RunEnd::Done { response, consumed: 1 }),
            Ok(None) => {
                let (last, end) = run(next, bytes.skip(1));
                (last, behind(end, 1))
            },
        }
    }
}

/// Where a run stopped, seen from `count` bytes earlier.
pub open spec fn behind(end: RunEnd, count: nat) -> RunEnd {
    match end {
        RunEnd::Done { response, consumed } => RunEnd::Done { response, consumed: consumed + count },
        _ => end,
    }
}

/// Fragmentation does not matter: a run over two parts goes on with the second one exactly where
/// the first one ended, and a response that ended or failed in the first part takes nothing from
/// the second.
pub proof fn lemma_run_concat(decoder: DecoderView, first: Seq<u8>, second: Seq<u8>)
    ensures
        run(decoder, first + second) == match run(decoder, first) {
            (next, RunEnd::More) => {
                let (last, end) = run(next, second);
                (last, behind(end, first.len()))
            },
            stopped => stopped,
        },
    decreases first.len(),
{
    if first.len() == 0 {
        assert(first + second =~= second);
        assert(behind(run(decoder, second).1, 0) == run(decoder, second).1);
    } else {
        let whole = first + second;
        assert(whole[0] == first[0]);
        assert(whole.skip(1) =~= first.skip(1) + second);
        let (next, outcome) = decoder_step(decoder, first[0]);
        if outcome matches Ok(None) {
            lemma_run_concat(next, first.skip(1), second);
            let (middle, end) = run(next, first.skip(1));
            if end is More {
                let (last, rest) = run(middle, second);
                assert(behind(behind(rest, (first.len() - 1) as nat), 1) == behind(
                    rest,
                    first.len(),
                ));
            }
        }
    }
}

/// What `decoder_step` keeps.
pub proof fn lemma_decoder_step_ok(decoder: DecoderView, byte: u8)
    requires
        decoder_ok(decoder),
    ensures
        within_limits(decoder_step(decoder, byte).0.frame),
        decoder_step(decoder, byte).1 is Ok ==> decoder_ok(decoder_step(decoder, byte).0),
        decoder_step(decoder, byte).1 matches Ok(Some(_)) ==> decoder_step(
            decoder,
            byte,
        ).0.frame.state is Complete,
        decoder_step(decoder, byte).1 matches Ok(None) ==> !(decoder_step(
            decoder,
            byte,
        ).0.frame.state is Complete),
{
    lemma_frame_step_ok(decoder.frame, byte);
}

impl ResponseDecoder {
    pub open spec fn wf(&self) -> bool {
        decoder_ok(self@)
    }

    pub fn new(response_to_head: bool, limits: HttpLimits) -> (result: Self)
        ensures
            result@ == fresh_decoder(response_to_head, limits),
            result.wf(),
    {
        let decoder = ResponseDecoder {
            limits,
            response_to_head,
            state: DecodeState::Head,
            scratch: Vec::new(),
            status: None,
            headers: Vec::new(),
            body: Vec::new(),
            informational_responses: 0,
            framing_bytes: 0,
            permits_reuse: false,
        };
        assert(header_views(decoder.headers@) =~= Seq::empty());
        decoder
    }

    /// Takes one more byte of a head, chunk-size line or trailer section.
    pub fn push_scratch(&mut self, byte: u8, context: &str, framing: bool) -> (result: Result<
        (),
        Error,
    >)
        ensures
            match result {
                Ok(_) => keep_byte(old(self)@.frame, byte, context@, framing) == Ok::<
                    Frame,
                    ErrorView,
                >(final(self)@.frame) && final(self)@ == (DecoderView {
                    frame: final(self)@.frame,
                    ..old(self)@
                }),
                Err(error) => keep_byte(old(self)@.frame, byte, context@, framing) == Err::<
                    Frame,
                    ErrorView,
                >(error@) && final(self)@ == old(self)@,
            },
    {
        if self.scratch.len() >= self.limits.header_bytes {
            return Err(section_limit(context, self.limits.header_bytes));
        }
        if framing {
            self.count_framing_byte(context)?;
        }
        self.scratch.push(byte);
        Ok(())
    }

    /// Counts one more framing byte between body bytes.
    pub fn count_framing_byte(&mut self, context: &str) -> (result: Result<(), Error>)
        ensures
            match result {
                Ok(_) => count_framing(old(self)@.frame, context@) == Ok::<Frame, ErrorView>(
                    final(self)@.frame,
                ) && final(self)@ == (DecoderView { frame: final(self)@.frame, ..old(self)@ }),
                Err(error) => count_framing(old(self)@.frame, context@) == Err::<Frame, ErrorView>(
                    error@,
                ) && final(self)@ == old(self)@,
            },
    {
        if self.framing_bytes >= self.limits.header_bytes {
            return Err(metadata_limit(context, self.limits.header_bytes));
        }
        self.framing_bytes = self.framing_bytes + 1;
        Ok(())
    }

    /// Takes one more body byte.
    pub fn push_body(&mut self, byte: u8) -> (result: Result<(), Error>)
        ensures
            match result {
                Ok(_) => old(self)@.body.len() < old(self).limits.body_bytes && final(self)@ == (
                DecoderView {
                    frame: Frame { body_len: old(self)@.body.len() + 1, ..old(self)@.frame },
                    body: old(self)@.body.push(byte),
                    ..old(self)@
                }),
                Err(error) => old(self)@.body.len() >= old(self).limits.body_bytes && error@
                    == response_body_exceeded(old(self).limits.body_bytes as nat) && final(self)@
                    == old(self)@,
            },
    {
        if self.body.len() >= self.limits.body_bytes {
            return Err(response_body_limit(self.limits.body_bytes));
        }
        self.body.push(byte);
        Ok(())
    }

    /// Hands over the response.
    pub fn complete(&mut self) -> (result: Result<Response, Error>)
        ensures
            match result {
                Ok(response) => old(self)@.status is Some && hand_over(old(self)@) == (
                    final(self)@,
                    Ok::<Option<ResponseView>, ErrorView>(Some(response@)),
                ),
                Err(error) => old(self)@.status is None && error@ == plain_error(
                    ErrorKind::Internal,
                    "native HTTP decoder completed without a final status"@,
                ) && final(self)@ == old(self)@,
            },
    {
        match self.status {
            Some(status) => {
                self.status = None;
                self.state = DecodeState::Complete;
                let headers = take_headers(&mut self.headers);
                let body = take_bytes(&mut self.body);
                assert(header_views(self.headers@) =~= Seq::empty());
                Ok(Response::new(status, headers, body))
            },
            None => Err(
                Error::new(
                    ErrorKind::Internal,
                    "native HTTP decoder completed without a final status",
                ),
            ),
        }
    }

    /// Takes one byte.
    #[verifier::rlimit(40)]
    pub fn consume(&mut self, byte: u8) -> (result: Result<Option<Response>, Error>)
        requires
            old(self).wf(),
        ensures
            match result {
                Ok(None) => decoder_step(old(self)@, byte) == (
                    final(self)@,
                    Ok::<Option<ResponseView>, ErrorView>(None),
                ),
                Ok(Some(response)) => decoder_step(old(self)@, byte) == (
                    final(self)@,
                    Ok::<Option<ResponseView>, ErrorView>(Some(response@)),
                ),
                Err(error) => decoder_step(old(self)@, byte) == (
                    final(self)@,
                    Err::<Option<ResponseView>, ErrorView>(error@),
                ),
            },
            result is Ok ==> final(self).wf(),
            within_limits(final(self)@.frame),
    {
        proof {
            lemma_decoder_step_ok(self@, byte);
        }
        match self.state {
            DecodeState::Head => {
                self.push_scratch(byte, "response head", false)?;
                if ends_with_blank_line(self.scratch.as_slice()) {
                    return self.finish_head();
                }
            },
            DecodeState::Fixed { remaining } => {
                self.push_body(byte)?;
                if remaining == 1 {
                    let response = self.complete()?;
                    return Ok(Some(response));
                }
                self.state = DecodeState::Fixed { remaining: remaining - 1 };
            },
            DecodeState::CloseDelimited => {
                self.push_body(byte)?;
            },
            DecodeState::ChunkSize => {
                let ghost before = self.scratch@;
                self.push_scratch(byte, "chunk-size line", true)?;
                if ends_with_crlf(self.scratch.as_slice()) {
                    assert(self.scratch@.drop_last() =~= before);
                    let size = read_chunk_size(self.scratch.as_slice())?;
                    self.scratch.clear();
                    let size = match chunk_within(size, self.body.len(), self.limits.body_bytes) {
                        Some(size) => size,
                        None => {
                            return Err(response_body_limit(self.limits.body_bytes));
                        },
                    };
                    self.state = if size == 0 {
                        DecodeState::Trailers
                    } else {
                        DecodeState::ChunkData { remaining: size }
                    };
                }
            },
            DecodeState::ChunkData { remaining } => {
                self.push_body(byte)?;
                self.state = if remaining == 1 {
                    DecodeState::ChunkEnd { matched: 0 }
                } else {
                    DecodeState::ChunkData { remaining: remaining - 1 }
                };
            },
            DecodeState::ChunkEnd { matched } => {
                if matched == 0 && byte == 0x0d {
                    self.count_framing_byte("chunk terminator")?;
                    self.state = DecodeState::ChunkEnd { matched: 1 };
                } else if matched == 1 && byte == 0x0a {
                    self.count_framing_byte("chunk terminator")?;
                    self.state = DecodeState::ChunkSize;
                } else {
                    return Err(http_error("response chunk data is not followed by CRLF"));
                }
            },
            DecodeState::Trailers => {
                self.push_scratch(byte, "response trailers", true)?;
                if is_crlf(self.scratch.as_slice()) || ends_with_blank_line(
                    self.scratch.as_slice(),
                ) {
                    validate_trailers(self.scratch.as_slice(), self.limits)?;
                    self.scratch.clear();
                    let response = self.complete()?;
                    return Ok(Some(response));
                }
            },
            DecodeState::Complete => {
                return Err(
                    Error::new(
                        ErrorKind::Internal,
                        "native HTTP decoder advanced after completion",
                    ),
                );
            },
        }
        Ok(None)
    }

    /// Takes bytes until they run out, the response ends or it turns out to be unacceptable.
    pub fn ingest(&mut self, bytes: &[u8]) -> (result: Result<DecodeProgress, Error>)
        requires
            old(self).wf(),
        ensures
            match result {
                Ok(progress) => !(old(self)@.frame.state is Complete) && match run(
                    old(self)@,
                    bytes@,
                ) {
                    (next, RunEnd::More) => {
                        &&& final(self)@ == next
                        &&& progress.response is None
                        &&& progress.consumed == bytes@.len()
                        &&& !progress.permits_reuse
                    },
                    (next, RunEnd::Done { response, consumed }) => {
                        &&& final(self)@ == next
                        &&& progress.response matches Some(done) && done@ == response
                        &&& progress.consumed == consumed
                        &&& progress.permits_reuse == next.frame.permits_reuse
                    },
                    (_, RunEnd::Failed(_)) => false,
                },
                Err(error) => if old(self)@.frame.state is Complete {
                    &&& final(self)@ == old(self)@
                    &&& error@ == plain_error(
                        ErrorKind::Internal,
                        "native HTTP decoder received bytes after completion"@,
                    )
                } else {
                    run(old(self)@, bytes@) == (final(self)@, RunEnd::Failed(error@))
                },
            },
            result is Ok ==> final(self).wf(),
            within_limits(final(self)@.frame),
    {
        if let DecodeState::Complete = self.state {
            return Err(
                Error::new(
                    ErrorKind::Internal,
                    "native HTTP decoder received bytes after completion",
                ),
            );
        }
        let ghost start = self@;
        let mut index: usize = 0;
        assert(bytes@.take(0) =~= Seq::empty());
        while index < bytes.len()
            invariant
                self.wf(),
                index <= bytes@.len(),
                !(start.frame.state is Complete),
                run(start, bytes@.take(index as int)) == (self@, RunEnd::More),
                start == old(self)@,
            decreases bytes@.len() - index,
        {
            let ghost before = self@;
            let ghost rest = bytes@.skip(index as int);
            proof {
                assert(bytes@ =~= bytes@.take(index as int) + rest);
                lemma_run_concat(start, bytes@.take(index as int), rest);
                assert(rest[0] == bytes@[index as int]);
                assert(bytes@.take(index + 1) =~= bytes@.take(index as int).push(
                    bytes@[index as int],
                ));
                let single = seq![bytes@[index as int]];
                assert(bytes@.take(index + 1) =~= bytes@.take(index as int) + single);
                lemma_run_concat(start, bytes@.take(index as int), single);
                assert(single.skip(1) =~= Seq::<u8>::empty());
                reveal_with_fuel(run, 2);
            }
            if let Some(response) = self.consume(bytes[index])? {
                return Ok(
                    DecodeProgress {
                        response: Some(response),
                        consumed: index + 1,
                        permits_reuse: self.permits_reuse,
                    },
                );
            }
            index += 1;
        }
        assert(bytes@.take(index as int) =~= bytes@);
        Ok(DecodeProgress { response: None, consumed: bytes.len(), permits_reuse: false })
    }

    /// Takes the end of the stream: it ends a close-delimited body and nothing else.
    pub fn eof(&mut self) -> (result: Result<Option<Response>, Error>)
        requires
            old(self).wf(),
        ensures
            match result {
                Ok(None) => eof_outcome(old(self)@) == (
                    final(self)@,
                    Ok::<Option<ResponseView>, ErrorView>(None),
                ),
                Ok(Some(response)) => eof_outcome(old(self)@) == (
                    final(self)@,
                    Ok::<Option<ResponseView>, ErrorView>(Some(response@)),
                ),
                Err(error) => eof_outcome(old(self)@) == (
                    final(self)@,
                    Err::<Option<ResponseView>, ErrorView>(error@),
                ),
            },
            final(self).wf(),
    {
        match self.state {
            DecodeState::CloseDelimited => {
                let response = self.complete()?;
                Ok(Some(response))
            },
            DecodeState::Complete => Ok(None),
            DecodeState::Head => Err(
                Error::transport(
                    TransportStage::Receive,
                    "the peer closed before a complete HTTP response head arrived",
                ),
            ),
            DecodeState::Fixed { .. } => Err(
                Error::transport(
                    TransportStage::Receive,
                    "the peer closed before the Content-Length body completed",
                ),
            ),
            DecodeState::ChunkSize
            | DecodeState::ChunkData { .. }
            | DecodeState::ChunkEnd { .. }
            | DecodeState::Trailers => Err(
                http_error("the peer closed before the chunked response completed"),
            ),
        }
    }

    /// Takes the head that is complete in the scratch buffer.
    fn finish_head(&mut self) -> (result: Result<Option<Response>, Error>)
        ensures
            match end_head(old(self)@.frame) {
                (frame, FrameEvent::Failed(failure)) => {
                    &&& result matches Err(error) && error@ == failure
                    &&& final(self)@ == (DecoderView { frame, ..old(self)@ })
                },
                (frame, FrameEvent::Head { status, headers }) => {
                    let settled = settle(
                        DecoderView { frame, status: Some(status), headers, ..old(self)@ },
                    );
                    &&& final(self)@ == settled.0
                    &&& result matches Ok(response)
                    &&& settled.1 == Ok::<Option<ResponseView>, ErrorView>(
                        match response {
                            Some(response) => Some(response@),
                            None => None,
                        },
                    )
                },
                (frame, _) => {
                    &&& result matches Ok(None)
                    &&& final(self)@ == (DecoderView { frame, ..old(self)@ })
                },
            },
    {
        let parsed = parse_response_head(
            self.scratch.as_slice(),
            self.response_to_head,
            self.limits,
        )?;
        self.scratch.clear();
        match parsed {
            ParsedHead::Informational => {
                if self.informational_responses == u8::MAX {
                    return Err(http_error("too many informational responses"));
                }
                self.informational_responses = self.informational_responses + 1;
                if self.informational_responses > MAX_INFORMATIONAL_RESPONSES {
                    return Err(http_error("too many informational responses"));
                }
                Ok(None)
            },
            ParsedHead::Final { status, headers, framing, permits_reuse } => {
                self.status = Some(status);
                self.headers = headers;
                self.permits_reuse = permits_reuse;
                match framing {
                    BodyFraming::NoBody => {
                        let response = self.complete()?;
                        return Ok(Some(response));
                    },
                    BodyFraming::Fixed(length) => {
                        if length == 0 {
                            let response = self.complete()?;
                            return Ok(Some(response));
                        }
                        self.state = DecodeState::Fixed { remaining: length };
                    },
                    BodyFraming::Chunked => {
                        self.state = DecodeState::ChunkSize;
                    },
                    BodyFraming::CloseDelimited => {
                        self.state = DecodeState::CloseDelimited;
                    },
                }
                Ok(None)
            },
        }
    }
}

fn take_bytes(bytes: &mut Vec<u8>) -> (result: Vec<u8>)
    ensures
        result@ == old(bytes)@,
        final(bytes)@ == Seq::<u8>::empty(),
{
    let mut taken: Vec<u8> = Vec::new();
    taken.append(bytes);
    assert(taken@ =~= old(bytes)@);
    taken
}

fn take_headers(headers: &mut Vec<Header>) -> (result: Vec<Header>)
    ensures
        result@ == old(headers)@,
        final(headers)@ == Seq::<Header>::empty(),
{
    let mut taken: Vec<Header> = Vec::new();
    taken.append(headers);
    assert(taken@ =~= old(headers)@);
    taken
}

/// Reports whether `text` is a line end.
pub fn is_crlf(text: &[u8]) -> (result: bool)
    ensures
        result == (text@ == crlf()),
{
    let result = text.len() == 2 && text[0] == 0x0d && text[1] == 0x0a;
    proof {
        if result {
            assert(text@ =~= crlf());
        }
    }
    result
}

/// The size that a chunk-size line denotes.
pub fn read_chunk_size(line: &[u8]) -> (result: Result<u64, Error>)
    requires
        ends_with(line@, crlf()),
        !has_crlf(line@.drop_last()),
    ensures
        match result {
            Ok(size) => chunk_line_size(line@) == Some(size as nat),
            Err(error) => chunk_line_size(line@) is None && error@ == http_failure(
                "response contains an invalid chunk size"@,
            ),
        },
{
    let (used, size) = match parse_chunk_size_line(line) {
        ChunkSizeLine::Complete { used, size } => (used, size),
        ChunkSizeLine::Partial => {
            return Err(http_error("response contains an invalid chunk size"));
        },
        ChunkSizeLine::Invalid => {
            return Err(http_error("response contains an invalid chunk size"));
        },
    };
    if used != line.len() {
        proof {
            let end = line@.subrange(used - 2, used as int);
            assert(end[0] == line@.drop_last()[used - 2]);
            assert(end[1] == line@.drop_last()[used - 1]);
            assert(has_crlf(line@.drop_last()));
        }
        return Err(http_error("response chunk size has trailing bytes"));
    }
    Ok(size)
}

/// The size of a chunk, where a body of `body_len` bytes can take it.
pub fn chunk_within(size: u64, body_len: usize, limit: usize) -> (result: Option<usize>)
    requires
        body_len <= limit,
    ensures
        result matches Some(bytes) ==> bytes == size,
        result is None <==> body_len + size > limit,
{
    if size > (limit - body_len) as u64 {
        None
    } else {
        Some(size as usize)
    }
}

/// A head, chunk-size line or trailer section outgrew its bound.
pub fn section_limit(context: &str, limit: usize) -> (result: Error)
    ensures
        result@ == crate::framing::section_exceeded(context@, limit as nat),
{
    let mut before = context.to_owned();
    before.append(" exceeds the configured ");
    let message = counted_text(before.as_str(), limit, " byte limit");
    Error::limit(LimitKind::ResponseHeaderBytes, message.as_str())
}

/// Framing bytes between body bytes outgrew their bound.
pub fn metadata_limit(context: &str, limit: usize) -> (result: Error)
    ensures
        result@ == crate::framing::metadata_exceeded(context@, limit as nat),
{
    let mut before = context.to_owned();
    before.append(" exceeds the configured ");
    let message = counted_text(before.as_str(), limit, " byte framing-metadata limit");
    Error::limit(LimitKind::ResponseHeaderBytes, message.as_str())
}

} // verus!
