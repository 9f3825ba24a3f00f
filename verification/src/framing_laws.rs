//! What is refused of every response, and exactly from where on.

use crate::chunk::{chunk_line_size, crlf, ends_with};
use crate::decoder::premature_end;
use crate::fields::{http_failure, response_body_exceeded};
use crate::framing::{
    end_chunk_size, end_head, frame_step, trailers_ended, DecodeState, Frame, FrameEvent,
};
use crate::head::{parsed_head, ParsedHeadView};
use crate::types::{transport_error, ErrorView, LimitKind, TransportStage};
use vstd::prelude::*;
use vstd::string::*;

verus! {

/// Up to eight informational heads are passed over; the ninth is one too many.
pub proof fn lemma_eight_informational_heads_are_passed_over(frame: Frame)
    ensures
        parsed_head(frame.scratch, frame.response_to_head, frame.limits) == Ok::<
            ParsedHeadView,
            ErrorView,
        >(ParsedHeadView::Informational) ==> {
            &&& frame.informational < 8 ==> end_head(frame) == (
                Frame {
                    scratch: Seq::empty(),
                    informational: (frame.informational + 1) as u8,
                    ..frame
                },
                FrameEvent::Quiet,
            )
            &&& frame.informational >= 8 ==> end_head(frame).1 == FrameEvent::Failed(
                http_failure("too many informational responses"@),
            )
        },
{
}

/// An error that says that a limit on the bytes of heads was exceeded.
pub open spec fn is_head_limit(event: FrameEvent) -> bool {
    event matches FrameEvent::Failed(error) && error.kind is Limit && error.limit == Some(
        LimitKind::ResponseHeaderBytes,
    )
}

/// A head, a chunk-size line and a trailer section may be as long as the limit on heads, and the framing
/// between body bytes may in all be as long; the next byte is refused.
pub proof fn lemma_framing_is_bounded_by_the_limit(frame: Frame, byte: u8)
    ensures
        frame.state is Head && frame.scratch.len() >= frame.limits.header_bytes ==> is_head_limit(
            frame_step(frame, byte).1,
        ),
        frame.state is Head && frame.scratch.len() < frame.limits.header_bytes && !ends_with(
            frame.scratch.push(byte),
            crlf() + crlf(),
        ) ==> frame_step(frame, byte) == (
            Frame { scratch: frame.scratch.push(byte), ..frame },
            FrameEvent::Quiet,
        ),
        (frame.state is ChunkSize || frame.state is Trailers) && (frame.scratch.len()
            >= frame.limits.header_bytes || frame.framing_bytes >= frame.limits.header_bytes)
            ==> is_head_limit(frame_step(frame, byte).1),
        frame.state is ChunkSize && frame.scratch.len() < frame.limits.header_bytes
            && frame.framing_bytes < frame.limits.header_bytes && !ends_with(
            frame.scratch.push(byte),
            crlf(),
        ) ==> frame_step(frame, byte) == (
            Frame {
                scratch: frame.scratch.push(byte),
                framing_bytes: frame.framing_bytes + 1,
                ..frame
            },
            FrameEvent::Quiet,
        ),
        frame.state is Trailers && frame.scratch.len() < frame.limits.header_bytes
            && frame.framing_bytes < frame.limits.header_bytes && !trailers_ended(
            frame.scratch.push(byte),
        ) ==> frame_step(frame, byte) == (
            Frame {
                scratch: frame.scratch.push(byte),
                framing_bytes: frame.framing_bytes + 1,
                ..frame
            },
            FrameEvent::Quiet,
        ),
{
}

/// A body may be as long as the limit on bodies; the next byte is refused, and so is a chunk that would
/// take it further.
pub proof fn lemma_bodies_are_bounded_by_the_limit(frame: Frame, byte: u8)
    ensures
        frame.state is Fixed || frame.state is CloseDelimited || frame.state is ChunkData ==> {
            &&& frame.body_len >= frame.limits.body_bytes ==> frame_step(frame, byte)
                == (frame, FrameEvent::Failed(response_body_exceeded(frame.limits.body_bytes as nat)))
            &&& frame.body_len < frame.limits.body_bytes ==> frame_step(frame, byte).1 is Body
                && frame_step(frame, byte).0.body_len == frame.body_len + 1
        },
        chunk_line_size(frame.scratch) matches Some(size) ==> {
            &&& frame.body_len + size > frame.limits.body_bytes ==> end_chunk_size(frame).1
                == FrameEvent::Failed(response_body_exceeded(frame.limits.body_bytes as nat))
            &&& frame.body_len + size <= frame.limits.body_bytes && size > 0 ==> end_chunk_size(frame)
                == (
                Frame {
                    scratch: Seq::empty(),
                    state: DecodeState::ChunkData { remaining: size as usize },
                    ..frame
                },
                FrameEvent::Quiet,
            )
            &&& size == 0 && frame.body_len <= frame.limits.body_bytes ==> end_chunk_size(frame) == (
                Frame { scratch: Seq::empty(), state: DecodeState::Trailers, ..frame },
                FrameEvent::Quiet,
            )
        },
        chunk_line_size(frame.scratch) is None ==> end_chunk_size(frame).1 == FrameEvent::Failed(
            http_failure("response contains an invalid chunk size"@),
        ),
{
}

/// Behind the bytes of a chunk stand a carriage return and a line feed, and nothing else.
pub proof fn lemma_chunks_end_with_a_line_end(frame: Frame, byte: u8)
    requires
        frame.state == (DecodeState::ChunkEnd { matched: 0 }) || frame.state == (
        DecodeState::ChunkEnd { matched: 1 }),
    ensures
        ({
            let expected: u8 = if frame.state == (DecodeState::ChunkEnd { matched: 0 }) {
                0x0d
            } else {
                0x0a
            };
            let next = frame_step(frame, byte);
            &&& byte != expected ==> next.1 == FrameEvent::Failed(
                http_failure("response chunk data is not followed by CRLF"@),
            )
            &&& byte == expected && frame.framing_bytes < frame.limits.header_bytes ==> next.1 is Quiet
                && next.0.state == if expected == 0x0d {
                DecodeState::ChunkEnd { matched: 1 }
            } else {
                DecodeState::ChunkSize
            }
            &&& byte == expected && frame.framing_bytes >= frame.limits.header_bytes
                ==> is_head_limit(next.1)
        }),
{
}

/// The end of the stream ends a response only where its body has no other end, or it was complete
/// before. Anywhere else it comes too early, and the error says where.
pub proof fn lemma_streams_end_too_early_anywhere_else(state: DecodeState)
    ensures
        premature_end(state) is None <==> state is CloseDelimited || state is Complete,
        state is Head ==> premature_end(state) == Some(
            transport_error(
                TransportStage::Receive,
                "the peer closed before a complete HTTP response head arrived"@,
            ),
        ),
        state is Fixed ==> premature_end(state) == Some(
            transport_error(
                TransportStage::Receive,
                "the peer closed before the Content-Length body completed"@,
            ),
        ),
        state is ChunkSize || state is ChunkData || state is ChunkEnd || state is Trailers
            ==> premature_end(state) == Some(
            http_failure("the peer closed before the chunked response completed"@),
        ),
{
}

/// The last byte of a body of known length completes the response, and no earlier one does.
pub proof fn lemma_bodies_end_at_their_length(frame: Frame, byte: u8)
    requires
        frame.body_len < frame.limits.body_bytes,
    ensures
        frame.state matches DecodeState::Fixed { remaining } ==> {
            &&& remaining == 1 ==> frame_step(frame, byte).0.state is Complete
            &&& remaining > 1 ==> frame_step(frame, byte).0.state == (DecodeState::Fixed {
                remaining: (remaining - 1) as usize,
            })
        },
        frame.state matches DecodeState::ChunkData { remaining } ==> {
            &&& remaining == 1 ==> frame_step(frame, byte).0.state == (DecodeState::ChunkEnd {
                matched: 0,
            })
            &&& remaining > 1 ==> frame_step(frame, byte).0.state == (DecodeState::ChunkData {
                remaining: (remaining - 1) as usize,
            })
        },
        frame.state is CloseDelimited ==> frame_step(frame, byte).0.state is CloseDelimited,
{
}

} // verus!
