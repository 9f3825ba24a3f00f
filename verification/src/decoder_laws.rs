//! What the response decoder makes of whole messages.

use crate::chunk::{chunk_line_size, crlf, ends_with};
use crate::config::receive_bound;
use crate::decoder::{
    behind, decoder_ok, decoder_step, eof_outcome, fresh_decoder, lemma_decoder_step_ok,
    lemma_run_concat, run, settle, DecoderView, RunEnd,
};
use crate::framing::{
    end_head, frame_ok, frame_step, has_crlf, is_failure, lemma_frame_step_ok, within_limits,
    DecodeState, Frame, FrameEvent, MAX_INFORMATIONAL_RESPONSES,
};
use crate::head::{checked_trailers, parsed_head, BodyFraming, ParsedHeadView};
use crate::types::{ErrorView, HeaderView, HttpLimits, ResponseView};
use vstd::prelude::*;

verus! {

/// One more byte behind a run that has not stopped.
proof fn lemma_run_push(decoder: DecoderView, bytes: Seq<u8>, byte: u8)
    requires
        run(decoder, bytes).1 is More,
    ensures
        run(decoder, bytes.push(byte)) == match decoder_step(run(decoder, bytes).0, byte) {
            (next, Err(error)) => (next, RunEnd::Failed(error)),
            (next, Ok(Some(response))) => (
                next,
                RunEnd::Done { response, consumed: bytes.len() + 1 },
            ),
            (next, Ok(None)) => (next, RunEnd::More),
        },
{
    let single = seq![byte];
    assert(bytes.push(byte) =~= bytes + single);
    lemma_run_concat(decoder, bytes, single);
    assert(single.skip(1) =~= Seq::<u8>::empty());
    reveal_with_fuel(run, 2);
}

/// Buffers never cross their bounds, whatever bytes arrive and however the run stops; a response
/// ends within the bytes that were given.
pub proof fn lemma_run_within_limits(decoder: DecoderView, bytes: Seq<u8>)
    requires
        decoder_ok(decoder),
    ensures
        within_limits(run(decoder, bytes).0.frame),
        !(run(decoder, bytes).1 is Failed) ==> decoder_ok(run(decoder, bytes).0),
        run(decoder, bytes).1 matches RunEnd::Done { consumed, .. } ==> 0 < consumed <= bytes.len(),
    decreases bytes.len(),
{
    if bytes.len() > 0 {
        lemma_decoder_step_ok(decoder, bytes[0]);
        let (next, outcome) = decoder_step(decoder, bytes[0]);
        if outcome matches Ok(None) {
            lemma_run_within_limits(next, bytes.skip(1));
        }
    }
}

/// How many more bytes a response may take: the heads that may still come, framing between body bytes,
/// and the body.
pub open spec fn bytes_left(frame: Frame) -> int {
    let heads = if frame.state is Head {
        (MAX_INFORMATIONAL_RESPONSES - frame.informational) * frame.limits.header_bytes
            + frame.limits.header_bytes - frame.scratch.len()
    } else {
        0
    };
    heads + (frame.limits.header_bytes - frame.framing_bytes) + (frame.limits.body_bytes
        - frame.body_len)
}

/// Each byte that is accepted is one that may come no more.
pub proof fn lemma_each_byte_counts(frame: Frame, byte: u8)
    requires
        frame_ok(frame),
        !is_failure(frame_step(frame, byte).1),
    ensures
        bytes_left(frame_step(frame, byte).0) < bytes_left(frame),
        bytes_left(frame) > 0,
{
    let (next, event) = frame_step(frame, byte);
    lemma_frame_step_ok(frame, byte);
    let seen = frame.informational as int;
    let bound = frame.limits.header_bytes as int;
    assert(0 <= (MAX_INFORMATIONAL_RESPONSES - seen) * bound) by (nonlinear_arith)
        requires
            seen <= MAX_INFORMATIONAL_RESPONSES,
            0 <= bound,
    ;
    assert((MAX_INFORMATIONAL_RESPONSES - seen) * bound == (MAX_INFORMATIONAL_RESPONSES - (seen
        + 1)) * bound + bound) by (nonlinear_arith);
}

proof fn lemma_run_uses_bytes(decoder: DecoderView, bytes: Seq<u8>)
    requires
        decoder_ok(decoder),
    ensures
        run(decoder, bytes).1 is More ==> bytes.len() <= bytes_left(decoder.frame),
        run(decoder, bytes).1 matches RunEnd::Done { consumed, .. } ==> consumed <= bytes_left(
            decoder.frame,
        ),
    decreases bytes.len(),
{
    if bytes.len() == 0 {
        assert(0 <= (MAX_INFORMATIONAL_RESPONSES - decoder.frame.informational)
            * decoder.frame.limits.header_bytes) by (nonlinear_arith)
            requires
                decoder.frame.informational <= MAX_INFORMATIONAL_RESPONSES,
        ;
    } else {
        let (frame, event) = frame_step(decoder.frame, bytes[0]);
        lemma_decoder_step_ok(decoder, bytes[0]);
        if !is_failure(event) {
            lemma_each_byte_counts(decoder.frame, bytes[0]);
        }
        let (next, outcome) = decoder_step(decoder, bytes[0]);
        if outcome matches Ok(None) {
            lemma_run_uses_bytes(next, bytes.skip(1));
        }
    }
}

/// The receive limit is enough for every response and bounds what one can take: a decoder that still
/// wants bytes, or that completed a response, took no more bytes than that.
pub proof fn lemma_responses_fit_the_receive_limit(
    response_to_head: bool,
    limits: HttpLimits,
    bytes: Seq<u8>,
)
    requires
        bytes.len() <= usize::MAX,
    ensures
        run(fresh_decoder(response_to_head, limits), bytes).1 is More ==> bytes.len()
            <= receive_bound(limits),
        run(fresh_decoder(response_to_head, limits), bytes).1 matches RunEnd::Done {
            consumed,
            ..
        } ==> consumed <= receive_bound(limits),
{
    let decoder = fresh_decoder(response_to_head, limits);
    lemma_run_uses_bytes(decoder, bytes);
    lemma_run_within_limits(decoder, bytes);
    let bound = limits.header_bytes as int;
    assert((MAX_INFORMATIONAL_RESPONSES - 0) * bound + bound + bound == bound * (
    MAX_INFORMATIONAL_RESPONSES + 2)) by (nonlinear_arith);
}

/// The boundary of a response is exact: bytes behind it change nothing.
pub proof fn lemma_trailing_bytes_are_untouched(
    decoder: DecoderView,
    bytes: Seq<u8>,
    trailing: Seq<u8>,
)
    requires
        run(decoder, bytes).1 is Done,
    ensures
        run(decoder, bytes + trailing) == run(decoder, bytes),
{
    lemma_run_concat(decoder, bytes, trailing);
}

/// However a message is cut in two, the outcome is that of the whole: the response, the error, and
/// the number of bytes that the response takes up.
pub proof fn lemma_fragmentation_is_invisible(decoder: DecoderView, bytes: Seq<u8>, cut: int)
    requires
        0 <= cut <= bytes.len(),
    ensures
        run(decoder, bytes) == match run(decoder, bytes.take(cut)) {
            (next, RunEnd::More) => {
                let (last, end) = run(next, bytes.skip(cut));
                (last, behind(end, cut as nat))
            },
            stopped => stopped,
        },
{
    assert(bytes =~= bytes.take(cut) + bytes.skip(cut));
    lemma_run_concat(decoder, bytes.take(cut), bytes.skip(cut));
}

/// A head section: it ends with a blank line, and no proper prefix of it does.
pub open spec fn is_head_section(bytes: Seq<u8>) -> bool {
    &&& ends_with(bytes, crlf() + crlf())
    &&& forall|end: int|
        0 <= end < bytes.len() ==> !ends_with(#[trigger] bytes.take(end), crlf() + crlf())
}

/// The decoder between messages: it reads a head and holds nothing else.
pub open spec fn awaits_head(decoder: DecoderView) -> bool {
    &&& decoder.frame.state is Head
    &&& decoder.frame.scratch.len() == 0
    &&& decoder.frame.body_len == 0
    &&& decoder.body.len() == 0
}

proof fn lemma_run_head_prefix(decoder: DecoderView, head: Seq<u8>, end: int)
    requires
        awaits_head(decoder),
        is_head_section(head),
        head.len() <= decoder.frame.limits.header_bytes,
        0 <= end < head.len(),
    ensures
        run(decoder, head.take(end)) == (
            DecoderView { frame: Frame { scratch: head.take(end), ..decoder.frame }, ..decoder },
            RunEnd::More,
        ),
    decreases end,
{
    if end == 0 {
        assert(head.take(0) =~= decoder.frame.scratch);
    } else {
        lemma_run_head_prefix(decoder, head, end - 1);
        assert(head.take(end) =~= head.take(end - 1).push(head[end - 1]));
        lemma_run_push(decoder, head.take(end - 1), head[end - 1]);
    }
}

/// A head section within its bound is parsed as a whole, and what it announces decides how the
/// decoder goes on.
pub proof fn lemma_run_head(decoder: DecoderView, head: Seq<u8>)
    requires
        awaits_head(decoder),
        is_head_section(head),
        head.len() <= decoder.frame.limits.header_bytes,
    ensures
        run(decoder, head) == match end_head(Frame { scratch: head, ..decoder.frame }) {
            (frame, FrameEvent::Failed(error)) => (
                DecoderView { frame, ..decoder },
                RunEnd::Failed(error),
            ),
            (frame, FrameEvent::Head { status, headers }) => match settle(
                DecoderView { frame, status: Some(status), headers, ..decoder },
            ) {
                (next, Ok(Some(response))) => (
                    next,
                    RunEnd::Done { response, consumed: head.len() },
                ),
                (next, _) => (next, RunEnd::More),
            },
            (frame, _) => (DecoderView { frame, ..decoder }, RunEnd::More),
        },
{
    let last = head.len() - 1;
    lemma_run_head_prefix(decoder, head, last);
    assert(head =~= head.take(last).push(head[last]));
    lemma_run_push(decoder, head.take(last), head[last]);
}

/// An informational head is skipped: only the count of such heads remembers it.
pub proof fn lemma_informational_head_is_skipped(decoder: DecoderView, head: Seq<u8>, rest: Seq<u8>)
    requires
        awaits_head(decoder),
        is_head_section(head),
        head.len() <= decoder.frame.limits.header_bytes,
        decoder.frame.informational < crate::framing::MAX_INFORMATIONAL_RESPONSES,
        parsed_head(head, decoder.frame.response_to_head, decoder.frame.limits) == Ok::<
            ParsedHeadView,
            ErrorView,
        >(ParsedHeadView::Informational),
    ensures
        ({
            let counted = DecoderView {
                frame: Frame {
                    informational: (decoder.frame.informational + 1) as u8,
                    ..decoder.frame
                },
                ..decoder
            };
            let (last, end) = run(counted, rest);
            run(decoder, head + rest) == (last, behind(end, head.len()))
        }),
{
    lemma_run_head(decoder, head);
    lemma_run_concat(decoder, head, rest);
    assert(Seq::<u8>::empty() =~= decoder.frame.scratch);
}

/// A response to HEAD, or one with a status that excludes a body, ends with its head.
pub proof fn lemma_no_body_response_ends_at_the_head(
    response_to_head: bool,
    limits: HttpLimits,
    head: Seq<u8>,
    rest: Seq<u8>,
    status: u16,
    headers: Seq<HeaderView>,
    reuse: bool,
)
    requires
        is_head_section(head),
        head.len() <= limits.header_bytes,
        parsed_head(head, response_to_head, limits) == Ok::<ParsedHeadView, ErrorView>(
            ParsedHeadView::Final {
                status,
                headers,
                framing: BodyFraming::NoBody,
                permits_reuse: reuse,
            },
        ),
    ensures
        run(fresh_decoder(response_to_head, limits), head + rest).1 == (RunEnd::Done {
            response: ResponseView { status, headers, body: Seq::empty() },
            consumed: head.len(),
        }),
        run(fresh_decoder(response_to_head, limits), head + rest).0.frame.permits_reuse == reuse,
{
    let decoder = fresh_decoder(response_to_head, limits);
    lemma_run_head(decoder, head);
    lemma_run_concat(decoder, head, rest);
}

/// Body bytes of known number are collected one for one.
proof fn lemma_run_fixed(decoder: DecoderView, payload: Seq<u8>)
    requires
        decoder_ok(decoder),
        decoder.frame.state is Fixed,
        payload.len() == decoder.frame.state->Fixed_remaining,
        decoder.body.len() + payload.len() <= decoder.frame.limits.body_bytes,
    ensures
        run(decoder, payload).1 == (RunEnd::Done {
            response: ResponseView {
                status: decoder.status->0,
                headers: decoder.headers,
                body: decoder.body + payload,
            },
            consumed: payload.len(),
        }),
        run(decoder, payload).0.frame.permits_reuse == decoder.frame.permits_reuse,
    decreases payload.len(),
{
    lemma_decoder_step_ok(decoder, payload[0]);
    let (next, outcome) = decoder_step(decoder, payload[0]);
    if payload.len() == 1 {
        assert(decoder.body.push(payload[0]) =~= decoder.body + payload);
    } else {
        lemma_run_fixed(next, payload.skip(1));
        assert(decoder.body.push(payload[0]) + payload.skip(1) =~= decoder.body + payload);
    }
}

/// A response with a declared length is given back byte for byte, and it ends exactly where its
/// length says.
pub proof fn lemma_fixed_length_response_round_trips(
    response_to_head: bool,
    limits: HttpLimits,
    head: Seq<u8>,
    payload: Seq<u8>,
    rest: Seq<u8>,
    status: u16,
    headers: Seq<HeaderView>,
    reuse: bool,
)
    requires
        is_head_section(head),
        head.len() <= limits.header_bytes,
        payload.len() <= limits.body_bytes,
        parsed_head(head, response_to_head, limits) == Ok::<ParsedHeadView, ErrorView>(
            ParsedHeadView::Final {
                status,
                headers,
                framing: BodyFraming::Fixed(payload.len() as usize),
                permits_reuse: reuse,
            },
        ),
    ensures
        run(fresh_decoder(response_to_head, limits), head + payload + rest).1 == (RunEnd::Done {
            response: ResponseView { status, headers, body: payload },
            consumed: head.len() + payload.len(),
        }),
        run(
            fresh_decoder(response_to_head, limits),
            head + payload + rest,
        ).0.frame.permits_reuse == reuse,
{
    let decoder = fresh_decoder(response_to_head, limits);
    lemma_run_head(decoder, head);
    lemma_run_concat(decoder, head, payload);
    lemma_run_concat(decoder, head + payload, rest);
    if payload.len() == 0 {
        assert(payload =~= Seq::<u8>::empty());
        assert(head + payload =~= head);
    } else {
        let next = run(decoder, head).0;
        lemma_run_fixed(next, payload);
        assert(next.body + payload =~= payload);
    }
}

/// Bytes of a body that ends with the connection are collected one for one.
proof fn lemma_run_close_delimited(decoder: DecoderView, payload: Seq<u8>)
    requires
        decoder_ok(decoder),
        decoder.frame.state is CloseDelimited,
        decoder.body.len() + payload.len() <= decoder.frame.limits.body_bytes,
    ensures
        run(decoder, payload) == (
            DecoderView {
                frame: Frame { body_len: decoder.body.len() + payload.len(), ..decoder.frame },
                body: decoder.body + payload,
                ..decoder
            },
            RunEnd::More,
        ),
    decreases payload.len(),
{
    if payload.len() == 0 {
        assert(decoder.body + payload =~= decoder.body);
    } else {
        lemma_decoder_step_ok(decoder, payload[0]);
        let (next, outcome) = decoder_step(decoder, payload[0]);
        lemma_run_close_delimited(next, payload.skip(1));
        assert(decoder.body.push(payload[0]) + payload.skip(1) =~= decoder.body + payload);
    }
}

/// A response without a declared length is given back byte for byte once the stream ends.
pub proof fn lemma_close_delimited_response_round_trips(
    response_to_head: bool,
    limits: HttpLimits,
    head: Seq<u8>,
    payload: Seq<u8>,
    status: u16,
    headers: Seq<HeaderView>,
    reuse: bool,
)
    requires
        is_head_section(head),
        head.len() <= limits.header_bytes,
        payload.len() <= limits.body_bytes,
        parsed_head(head, response_to_head, limits) == Ok::<ParsedHeadView, ErrorView>(
            ParsedHeadView::Final {
                status,
                headers,
                framing: BodyFraming::CloseDelimited,
                permits_reuse: reuse,
            },
        ),
    ensures
        run(fresh_decoder(response_to_head, limits), head + payload).1 is More,
        eof_outcome(run(fresh_decoder(response_to_head, limits), head + payload).0).1 == Ok::<
            Option<ResponseView>,
            ErrorView,
        >(Some(ResponseView { status, headers, body: payload })),
{
    let decoder = fresh_decoder(response_to_head, limits);
    lemma_run_head(decoder, head);
    lemma_run_concat(decoder, head, payload);
    let next = run(decoder, head).0;
    lemma_run_close_delimited(next, payload);
    assert(next.body + payload =~= payload);
}

/// A chunk on the wire: its size line, which may carry an extension, and its bytes.
pub struct WireChunk {
    pub line: Seq<u8>,
    pub data: Seq<u8>,
}

/// The line denotes the number of bytes, which is not zero, and holds no line end but its own.
pub open spec fn is_wire_chunk(chunk: WireChunk) -> bool {
    &&& chunk_line_size(chunk.line) == Some(chunk.data.len())
    &&& !has_crlf(chunk.line.drop_last())
    &&& chunk.data.len() > 0
}

/// The bytes of consecutive chunks.
pub open spec fn chunk_bytes(chunks: Seq<WireChunk>) -> Seq<u8>
    decreases chunks.len(),
{
    if chunks.len() == 0 {
        Seq::empty()
    } else {
        chunks[0].line + chunks[0].data + crlf() + chunk_bytes(chunks.skip(1))
    }
}

/// What consecutive chunks carry.
pub open spec fn chunk_payload(chunks: Seq<WireChunk>) -> Seq<u8>
    decreases chunks.len(),
{
    if chunks.len() == 0 {
        Seq::empty()
    } else {
        chunks[0].data + chunk_payload(chunks.skip(1))
    }
}

/// A trailer section: complete at its end and nowhere before.
pub open spec fn is_trailer_section(bytes: Seq<u8>) -> bool {
    &&& bytes.len() > 0
    &&& crate::framing::trailers_ended(bytes)
    &&& forall|end: int|
        0 < end < bytes.len() ==> !crate::framing::trailers_ended(#[trigger] bytes.take(end))
}

/// The decoder at the start of a chunk-size line.
pub open spec fn awaits_chunk(decoder: DecoderView) -> bool {
    &&& decoder_ok(decoder)
    &&& decoder.frame.state is ChunkSize
    &&& decoder.frame.scratch.len() == 0
}

proof fn lemma_run_chunk_line_prefix(decoder: DecoderView, line: Seq<u8>, end: int)
    requires
        awaits_chunk(decoder),
        ends_with(line, crlf()),
        !has_crlf(line.drop_last()),
        decoder.frame.framing_bytes + line.len() <= decoder.frame.limits.header_bytes,
        0 <= end < line.len(),
    ensures
        run(decoder, line.take(end)) == (
            DecoderView {
                frame: Frame {
                    scratch: line.take(end),
                    framing_bytes: decoder.frame.framing_bytes + end as nat,
                    ..decoder.frame
                },
                ..decoder
            },
            RunEnd::More,
        ),
    decreases end,
{
    if end == 0 {
        assert(line.take(0) =~= decoder.frame.scratch);
    } else {
        lemma_run_chunk_line_prefix(decoder, line, end - 1);
        assert(line.take(end) =~= line.take(end - 1).push(line[end - 1]));
        lemma_run_push(decoder, line.take(end - 1), line[end - 1]);
        if ends_with(line.take(end), crlf()) {
            let tail = line.take(end).skip(end - 2);
            assert(tail[0] == line.drop_last()[end - 2]);
            assert(tail[1] == line.drop_last()[end - 1]);
            assert(has_crlf(line.drop_last()));
        }
    }
}

proof fn lemma_run_chunk_line(decoder: DecoderView, line: Seq<u8>, size: nat)
    requires
        awaits_chunk(decoder),
        chunk_line_size(line) == Some(size),
        !has_crlf(line.drop_last()),
        decoder.frame.framing_bytes + line.len() <= decoder.frame.limits.header_bytes,
        decoder.body.len() + size <= decoder.frame.limits.body_bytes,
    ensures
        run(decoder, line) == (
            DecoderView {
                frame: Frame {
                    state: if size == 0 {
                        DecodeState::Trailers
                    } else {
                        DecodeState::ChunkData { remaining: size as usize }
                    },
                    framing_bytes: decoder.frame.framing_bytes + line.len(),
                    ..decoder.frame
                },
                ..decoder
            },
            RunEnd::More,
        ),
{
    let last = line.len() - 1;
    lemma_run_chunk_line_prefix(decoder, line, last);
    assert(line =~= line.take(last).push(line[last]));
    lemma_run_push(decoder, line.take(last), line[last]);
    assert(decoder.frame.scratch =~= Seq::<u8>::empty());
}

proof fn lemma_run_chunk_data(decoder: DecoderView, data: Seq<u8>)
    requires
        decoder_ok(decoder),
        decoder.frame.state is ChunkData,
        data.len() == decoder.frame.state->ChunkData_remaining,
        decoder.body.len() + data.len() <= decoder.frame.limits.body_bytes,
    ensures
        run(decoder, data) == (
            DecoderView {
                frame: Frame {
                    state: DecodeState::ChunkEnd { matched: 0 },
                    body_len: decoder.body.len() + data.len(),
                    ..decoder.frame
                },
                body: decoder.body + data,
                ..decoder
            },
            RunEnd::More,
        ),
    decreases data.len(),
{
    lemma_decoder_step_ok(decoder, data[0]);
    let (next, outcome) = decoder_step(decoder, data[0]);
    if data.len() == 1 {
        assert(data.skip(1) =~= Seq::<u8>::empty());
        assert(decoder.body.push(data[0]) =~= decoder.body + data);
        reveal_with_fuel(run, 2);
    } else {
        lemma_run_chunk_data(next, data.skip(1));
        assert(decoder.body.push(data[0]) + data.skip(1) =~= decoder.body + data);
    }
}

proof fn lemma_run_chunk_end(decoder: DecoderView)
    requires
        decoder_ok(decoder),
        decoder.frame.state == (DecodeState::ChunkEnd { matched: 0 }),
        decoder.frame.framing_bytes + 2 <= decoder.frame.limits.header_bytes,
    ensures
        run(decoder, crlf()) == (
            DecoderView {
                frame: Frame {
                    state: DecodeState::ChunkSize,
                    framing_bytes: decoder.frame.framing_bytes + 2,
                    ..decoder.frame
                },
                ..decoder
            },
            RunEnd::More,
        ),
{
    assert(crlf().skip(1) =~= seq![0x0au8]);
    assert(crlf().skip(1).skip(1) =~= Seq::<u8>::empty());
    reveal_with_fuel(run, 3);
}

/// One whole chunk.
proof fn lemma_run_chunk(decoder: DecoderView, chunk: WireChunk)
    requires
        awaits_chunk(decoder),
        is_wire_chunk(chunk),
        decoder.frame.framing_bytes + chunk.line.len() + 2 <= decoder.frame.limits.header_bytes,
        decoder.body.len() + chunk.data.len() <= decoder.frame.limits.body_bytes,
    ensures
        run(decoder, chunk.line + chunk.data + crlf()) == (
            DecoderView {
                frame: Frame {
                    framing_bytes: decoder.frame.framing_bytes + chunk.line.len() + 2,
                    body_len: decoder.body.len() + chunk.data.len(),
                    ..decoder.frame
                },
                body: decoder.body + chunk.data,
                ..decoder
            },
            RunEnd::More,
        ),
        awaits_chunk(run(decoder, chunk.line + chunk.data + crlf()).0),
{
    let line = chunk.line;
    let data = chunk.data;
    lemma_run_chunk_line(decoder, line, data.len());
    lemma_run_within_limits(decoder, line);
    let sized = run(decoder, line).0;
    lemma_run_concat(decoder, line, data);
    lemma_run_chunk_data(sized, data);
    lemma_run_within_limits(sized, data);
    let filled = run(sized, data).0;
    lemma_run_concat(decoder, line + data, crlf());
    lemma_run_chunk_end(filled);
    lemma_run_within_limits(filled, crlf());
}

proof fn lemma_run_trailer_prefix(decoder: DecoderView, section: Seq<u8>, end: int)
    requires
        decoder_ok(decoder),
        decoder.frame.state is Trailers,
        decoder.frame.scratch.len() == 0,
        is_trailer_section(section),
        decoder.frame.framing_bytes + section.len() <= decoder.frame.limits.header_bytes,
        0 <= end < section.len(),
    ensures
        run(decoder, section.take(end)) == (
            DecoderView {
                frame: Frame {
                    scratch: section.take(end),
                    framing_bytes: decoder.frame.framing_bytes + end as nat,
                    ..decoder.frame
                },
                ..decoder
            },
            RunEnd::More,
        ),
    decreases end,
{
    if end == 0 {
        assert(section.take(0) =~= decoder.frame.scratch);
    } else {
        lemma_run_trailer_prefix(decoder, section, end - 1);
        assert(section.take(end) =~= section.take(end - 1).push(section[end - 1]));
        lemma_run_push(decoder, section.take(end - 1), section[end - 1]);
    }
}

/// An acceptable trailer section ends the response; its fields are not part of it.
proof fn lemma_run_trailers(decoder: DecoderView, section: Seq<u8>)
    requires
        decoder_ok(decoder),
        decoder.frame.state is Trailers,
        decoder.frame.scratch.len() == 0,
        is_trailer_section(section),
        checked_trailers(section, decoder.frame.limits) is Ok,
        decoder.frame.framing_bytes + section.len() <= decoder.frame.limits.header_bytes,
    ensures
        run(decoder, section).1 == (RunEnd::Done {
            response: ResponseView {
                status: decoder.status->0,
                headers: decoder.headers,
                body: decoder.body,
            },
            consumed: section.len(),
        }),
        run(decoder, section).0.frame.permits_reuse == decoder.frame.permits_reuse,
{
    let last = section.len() - 1;
    lemma_run_trailer_prefix(decoder, section, last);
    assert(section =~= section.take(last).push(section[last]));
    lemma_run_push(decoder, section.take(last), section[last]);
}

/// A whole chunked body.
pub proof fn lemma_run_chunked(
    decoder: DecoderView,
    chunks: Seq<WireChunk>,
    end_line: Seq<u8>,
    trailers: Seq<u8>,
)
    requires
        awaits_chunk(decoder),
        forall|i: int| 0 <= i < chunks.len() ==> is_wire_chunk(#[trigger] chunks[i]),
        chunk_line_size(end_line) == Some(0nat),
        !has_crlf(end_line.drop_last()),
        is_trailer_section(trailers),
        checked_trailers(trailers, decoder.frame.limits) is Ok,
        decoder.body.len() + chunk_payload(chunks).len() <= decoder.frame.limits.body_bytes,
        decoder.frame.framing_bytes + chunk_bytes(chunks).len() - chunk_payload(chunks).len()
            + end_line.len() + trailers.len() <= decoder.frame.limits.header_bytes,
    ensures
        run(decoder, chunk_bytes(chunks) + end_line + trailers).1 == (RunEnd::Done {
            response: ResponseView {
                status: decoder.status->0,
                headers: decoder.headers,
                body: decoder.body + chunk_payload(chunks),
            },
            consumed: chunk_bytes(chunks).len() + end_line.len() + trailers.len(),
        }),
        run(
            decoder,
            chunk_bytes(chunks) + end_line + trailers,
        ).0.frame.permits_reuse == decoder.frame.permits_reuse,
    decreases chunks.len(),
{
    let wire = chunk_bytes(chunks) + end_line + trailers;
    if chunks.len() == 0 {
        assert(wire =~= end_line + trailers);
        lemma_run_chunk_line(decoder, end_line, 0);
        lemma_run_within_limits(decoder, end_line);
        lemma_run_concat(decoder, end_line, trailers);
        let next = run(decoder, end_line).0;
        lemma_run_trailers(next, trailers);
        assert(decoder.body + chunk_payload(chunks) =~= decoder.body);
    } else {
        let chunk = chunks[0];
        let rest = chunks.skip(1);
        let first = chunk.line + chunk.data + crlf();
        lemma_payload_is_shorter(rest);
        lemma_run_chunk(decoder, chunk);
        let next = run(decoder, first).0;
        assert forall|i: int| 0 <= i < rest.len() implies is_wire_chunk(#[trigger] rest[i]) by {
            assert(rest[i] == chunks[i + 1]);
        }
        lemma_run_chunked(next, rest, end_line, trailers);
        let tail = chunk_bytes(rest) + end_line + trailers;
        assert(wire =~= first + tail);
        lemma_run_concat(decoder, first, tail);
        assert(decoder.body + chunk.data + chunk_payload(rest) =~= decoder.body + chunk_payload(
            chunks,
        ));
    }
}

proof fn lemma_payload_is_shorter(chunks: Seq<WireChunk>)
    ensures
        chunk_payload(chunks).len() <= chunk_bytes(chunks).len(),
    decreases chunks.len(),
{
    if chunks.len() > 0 {
        lemma_payload_is_shorter(chunks.skip(1));
    }
}

/// A chunked response is given back as the concatenation of its chunks. Extensions and trailers are
/// framing: they count against the bound on framing bytes and are not part of the response.
pub proof fn lemma_chunked_response_round_trips(
    response_to_head: bool,
    limits: HttpLimits,
    head: Seq<u8>,
    chunks: Seq<WireChunk>,
    end_line: Seq<u8>,
    trailers: Seq<u8>,
    rest: Seq<u8>,
    status: u16,
    headers: Seq<HeaderView>,
    reuse: bool,
)
    requires
        is_head_section(head),
        head.len() <= limits.header_bytes,
        parsed_head(head, response_to_head, limits) == Ok::<ParsedHeadView, ErrorView>(
            ParsedHeadView::Final {
                status,
                headers,
                framing: BodyFraming::Chunked,
                permits_reuse: reuse,
            },
        ),
        forall|i: int| 0 <= i < chunks.len() ==> is_wire_chunk(#[trigger] chunks[i]),
        chunk_line_size(end_line) == Some(0nat),
        !has_crlf(end_line.drop_last()),
        is_trailer_section(trailers),
        checked_trailers(trailers, limits) is Ok,
        chunk_payload(chunks).len() <= limits.body_bytes,
        chunk_bytes(chunks).len() - chunk_payload(chunks).len() + end_line.len() + trailers.len()
            <= limits.header_bytes,
    ensures
        run(
            fresh_decoder(response_to_head, limits),
            head + (chunk_bytes(chunks) + end_line + trailers) + rest,
        ).1 == (RunEnd::Done {
            response: ResponseView { status, headers, body: chunk_payload(chunks) },
            consumed: head.len() + chunk_bytes(chunks).len() + end_line.len() + trailers.len(),
        }),
        run(
            fresh_decoder(response_to_head, limits),
            head + (chunk_bytes(chunks) + end_line + trailers) + rest,
        ).0.frame.permits_reuse == reuse,
{
    let decoder = fresh_decoder(response_to_head, limits);
    let body = chunk_bytes(chunks) + end_line + trailers;
    lemma_run_head(decoder, head);
    lemma_run_within_limits(decoder, head);
    lemma_run_concat(decoder, head, body);
    lemma_run_concat(decoder, head + body, rest);
    let next = run(decoder, head).0;
    lemma_run_chunked(next, chunks, end_line, trailers);
    assert(next.body + chunk_payload(chunks) =~= chunk_payload(chunks));
}

/// The bare line end is a trailer section that is always acceptable.
pub proof fn lemma_empty_trailers(limits: HttpLimits)
    ensures
        is_trailer_section(crlf()),
        checked_trailers(crlf(), limits) == Ok::<(), ErrorView>(()),
{
    assert forall|end: int| 0 < end < crlf().len() implies !crate::framing::trailers_ended(
        #[trigger] crlf().take(end),
    ) by {
        assert(crlf().take(end).len() == 1);
    }
}

} // verus!
