//! The state machine that both response decoders follow, one byte at a time.

use crate::chunk::{chunk_line_size, crlf, ends_with};
use crate::fields::{http_failure, response_body_exceeded};
use crate::head::{checked_trailers, parsed_head, BodyFraming, ParsedHeadView};
use crate::text::counted;
use crate::types::{limit_error, ErrorView, HeaderView, HttpLimits, LimitKind};
use vstd::prelude::*;

verus! {

/// How many informational heads may precede the final one.
pub const MAX_INFORMATIONAL_RESPONSES: u8 = 8;

/// What the next byte of a response belongs to.
#[derive(Clone, Copy, Debug, PartialEq, Eq, Structural)]
pub enum DecodeState {
    Head,
    Fixed { remaining: usize },
    CloseDelimited,
    ChunkSize,
    ChunkData { remaining: usize },
    ChunkEnd { matched: u8 },
    Trailers,
    Complete,
}

/// The framing state of a response that is being received.
#[verifier::ext_equal]
pub struct Frame {
    pub limits: HttpLimits,
    pub response_to_head: bool,
    pub state: DecodeState,
    pub scratch: Seq<u8>,
    pub body_len: nat,
    pub informational: u8,
    pub framing_bytes: nat,
    pub permits_reuse: bool,
}

/// What one byte brought about.
#[verifier::ext_equal]
pub enum FrameEvent {
    /// The byte was framing.
    Quiet,
    /// The byte ended the final head.
    Head { status: u16, headers: Seq<HeaderView> },
    /// The byte belongs to the body.
    Body,
    /// The byte ended the trailer section.
    End,
    /// The response is unacceptable.
    Failed(ErrorView),
    /// The response had ended before.
    Spent,
}

/// Before the first byte.
pub open spec fn fresh_frame(response_to_head: bool, limits: HttpLimits) -> Frame {
    Frame {
        limits,
        response_to_head,
        state: DecodeState::Head,
        scratch: Seq::empty(),
        body_len: 0,
        informational: 0,
        framing_bytes: 0,
        permits_reuse: false,
    }
}

/// A head, chunk-size line or trailer section outgrew its bound.
pub open spec fn section_exceeded(context: Seq<char>, limit: nat) -> ErrorView {
    limit_error(
        LimitKind::ResponseHeaderBytes,
        counted(context + " exceeds the configured "@, limit, " byte limit"@),
    )
}

/// Framing bytes between body bytes outgrew their bound.
pub open spec fn metadata_exceeded(context: Seq<char>, limit: nat) -> ErrorView {
    limit_error(
        LimitKind::ResponseHeaderBytes,
        counted(context + " exceeds the configured "@, limit, " byte framing-metadata limit"@),
    )
}

/// One more framing byte between body bytes.
pub open spec fn count_framing(frame: Frame, context: Seq<char>) -> Result<Frame, ErrorView> {
    if frame.framing_bytes >= frame.limits.header_bytes {
        Err(metadata_exceeded(context, frame.limits.header_bytes as nat))
    } else {
        Ok(Frame { framing_bytes: frame.framing_bytes + 1, ..frame })
    }
}

/// One more byte of a head, chunk-size line or trailer section.
pub open spec fn keep_byte(frame: Frame, byte: u8, context: Seq<char>, framing: bool) -> Result<
    Frame,
    ErrorView,
> {
    if frame.scratch.len() >= frame.limits.header_bytes {
        Err(section_exceeded(context, frame.limits.header_bytes as nat))
    } else {
        let counted = if framing {
            count_framing(frame, context)
        } else {
            Ok(frame)
        };
        match counted {
            Err(error) => Err(error),
            Ok(next) => Ok(Frame { scratch: frame.scratch.push(byte), ..next }),
        }
    }
}

/// The state in which the body that follows a head starts.
pub open spec fn body_start(framing: BodyFraming) -> DecodeState {
    match framing {
        BodyFraming::NoBody => DecodeState::Complete,
        BodyFraming::Fixed(length) => if length == 0 {
            DecodeState::Complete
        } else {
            DecodeState::Fixed { remaining: length }
        },
        BodyFraming::Chunked => DecodeState::ChunkSize,
        BodyFraming::CloseDelimited => DecodeState::CloseDelimited,
    }
}

/// A head is complete in `frame.scratch`.
pub open spec fn end_head(frame: Frame) -> (Frame, FrameEvent) {
    match parsed_head(frame.scratch, frame.response_to_head, frame.limits) {
        Err(error) => (frame, FrameEvent::Failed(error)),
        Ok(ParsedHeadView::Informational) => {
            let seen = if frame.informational == u8::MAX {
                u8::MAX
            } else {
                (frame.informational + 1) as u8
            };
            let next = Frame { scratch: Seq::empty(), informational: seen, ..frame };
            if seen > MAX_INFORMATIONAL_RESPONSES {
                (next, FrameEvent::Failed(http_failure("too many informational responses"@)))
            } else {
                (next, FrameEvent::Quiet)
            }
        },
        Ok(ParsedHeadView::Final { status, headers, framing, permits_reuse }) => (
            Frame { scratch: Seq::empty(), permits_reuse, state: body_start(framing), ..frame },
            FrameEvent::Head { status, headers },
        ),
    }
}

/// One more body byte, after which the state is `next`.
pub open spec fn take_body(frame: Frame, next: DecodeState) -> (Frame, FrameEvent) {
    if frame.body_len >= frame.limits.body_bytes {
        (frame, FrameEvent::Failed(response_body_exceeded(frame.limits.body_bytes as nat)))
    } else {
        (Frame { body_len: frame.body_len + 1, state: next, ..frame }, FrameEvent::Body)
    }
}

/// A chunk-size line is complete in `frame.scratch`.
pub open spec fn end_chunk_size(frame: Frame) -> (Frame, FrameEvent) {
    match chunk_line_size(frame.scratch) {
        None => (
            frame,
            FrameEvent::Failed(http_failure("response contains an invalid chunk size"@)),
        ),
        Some(size) => {
            let next = Frame { scratch: Seq::empty(), ..frame };
            if frame.body_len + size > frame.limits.body_bytes {
                (next, FrameEvent::Failed(response_body_exceeded(frame.limits.body_bytes as nat)))
            } else if size == 0 {
                (Frame { state: DecodeState::Trailers, ..next }, FrameEvent::Quiet)
            } else {
                (
                    Frame { state: DecodeState::ChunkData { remaining: size as usize }, ..next },
                    FrameEvent::Quiet,
                )
            }
        },
    }
}

/// A trailer section is complete in `frame.scratch`.
pub open spec fn end_trailers(frame: Frame) -> (Frame, FrameEvent) {
    match checked_trailers(frame.scratch, frame.limits) {
        Err(error) => (frame, FrameEvent::Failed(error)),
        Ok(_) => (
            Frame { scratch: Seq::empty(), state: DecodeState::Complete, ..frame },
            FrameEvent::End,
        ),
    }
}

/// Whether a trailer section is complete: it is empty, or it ends with a blank line.
pub open spec fn trailers_ended(scratch: Seq<u8>) -> bool {
    scratch == crlf() || ends_with(scratch, crlf() + crlf())
}

/// What one byte does to a response that is being received.
pub open spec fn frame_step(frame: Frame, byte: u8) -> (Frame, FrameEvent) {
    match frame.state {
        DecodeState::Head => match keep_byte(frame, byte, "response head"@, false) {
            Err(error) => (frame, FrameEvent::Failed(error)),
            Ok(next) => if ends_with(next.scratch, crlf() + crlf()) {
                end_head(next)
            } else {
                (next, FrameEvent::Quiet)
            },
        },
        DecodeState::Fixed { remaining } => take_body(
            frame,
            if remaining == 1 {
                DecodeState::Complete
            } else {
                DecodeState::Fixed { remaining: (remaining - 1) as usize }
            },
        ),
        DecodeState::CloseDelimited => take_body(frame, DecodeState::CloseDelimited),
        DecodeState::ChunkSize => match keep_byte(frame, byte, "chunk-size line"@, true) {
            Err(error) => (frame, FrameEvent::Failed(error)),
            Ok(next) => if ends_with(next.scratch, crlf()) {
                end_chunk_size(next)
            } else {
                (next, FrameEvent::Quiet)
            },
        },
        DecodeState::ChunkData { remaining } => take_body(
            frame,
            if remaining == 1 {
                DecodeState::ChunkEnd { matched: 0 }
            } else {
                DecodeState::ChunkData { remaining: (remaining - 1) as usize }
            },
        ),
        DecodeState::ChunkEnd { matched } => if (matched == 0 && byte == 0x0d) || (matched == 1
            && byte == 0x0a) {
            match count_framing(frame, "chunk terminator"@) {
                Err(error) => (frame, FrameEvent::Failed(error)),
                Ok(next) => (
                    Frame {
                        state: if matched == 0 {
                            DecodeState::ChunkEnd { matched: 1 }
                        } else {
                            DecodeState::ChunkSize
                        },
                        ..next
                    },
                    FrameEvent::Quiet,
                ),
            }
        } else {
            (
                frame,
                FrameEvent::Failed(http_failure("response chunk data is not followed by CRLF"@)),
            )
        },
        DecodeState::Trailers => match keep_byte(frame, byte, "response trailers"@, true) {
            Err(error) => (frame, FrameEvent::Failed(error)),
            Ok(next) => if trailers_ended(next.scratch) {
                end_trailers(next)
            } else {
                (next, FrameEvent::Quiet)
            },
        },
        DecodeState::Complete => (frame, FrameEvent::Spent),
    }
}

/// What is held never exceeds the limits.
pub open spec fn within_limits(frame: Frame) -> bool {
    &&& frame.scratch.len() <= frame.limits.header_bytes
    &&& frame.framing_bytes <= frame.limits.header_bytes
    &&& frame.body_len <= frame.limits.body_bytes
}

/// A line end occurs in `text`.
pub open spec fn has_crlf(text: Seq<u8>) -> bool {
    exists|i: int| 0 <= i < text.len() - 1 && #[trigger] text[i] == 0x0d && text[i + 1] == 0x0a
}

/// A state that a response without a violation can be in.
pub open spec fn frame_ok(frame: Frame) -> bool {
    &&& within_limits(frame)
    &&& frame.informational <= MAX_INFORMATIONAL_RESPONSES
    &&& match frame.state {
        DecodeState::Fixed { remaining } => remaining > 0 && frame.scratch.len() == 0,
        DecodeState::ChunkData { remaining } => remaining > 0 && frame.scratch.len() == 0,
        DecodeState::ChunkSize => !has_crlf(frame.scratch),
        DecodeState::Head => true,
        DecodeState::Trailers => true,
        _ => frame.scratch.len() == 0,
    }
}

/// Whether an event leaves the response acceptable.
pub open spec fn is_failure(event: FrameEvent) -> bool {
    event is Failed || event is Spent
}

/// No byte takes what is held beyond the limits, and a byte that is accepted leads to a state that
/// a response without a violation can be in.
pub proof fn lemma_frame_step_ok(frame: Frame, byte: u8)
    requires
        frame_ok(frame),
    ensures
        within_limits(frame_step(frame, byte).0),
        !is_failure(frame_step(frame, byte).1) ==> frame_ok(frame_step(frame, byte).0),
        frame_step(frame, byte).0.limits == frame.limits,
        frame_step(frame, byte).0.response_to_head == frame.response_to_head,
{
    let (next, event) = frame_step(frame, byte);
    if frame.state is ChunkSize && next.state is ChunkSize && !is_failure(event) {
        let scratch = next.scratch;
        if has_crlf(scratch) {
            let i = choose|i: int|
                0 <= i < scratch.len() - 1 && #[trigger] scratch[i] == 0x0d && scratch[i + 1]
                    == 0x0a;
            if i + 2 < scratch.len() {
                assert(frame.scratch[i] == 0x0d);
                assert(frame.scratch[i + 1] == 0x0a);
                assert(has_crlf(frame.scratch));
            } else {
                assert(scratch.skip(scratch.len() - 2) =~= crlf());
            }
        }
    }
}

} // verus!
