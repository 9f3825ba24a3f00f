//! Drivers that feed the response decoders in fragments, for fuzzing and for tests.

use crate::decoder::{
    decoder_ok, eof_outcome, fresh_decoder, lemma_run_concat, run, DecoderView, ResponseDecoder, RunEnd,
};
use crate::decoder_laws::lemma_run_within_limits;
use crate::types::{
    plain_error, Error, ErrorKind, ErrorView, HttpLimits, Response, ResponseView,
};
use vstd::prelude::*;
use vstd::string::*;

verus! {

/// How one message was decoded.
#[allow(inconsistent_fields)]
#[derive(Debug, PartialEq, Eq)]
pub enum FuzzDecodeOutcome {
    Complete { response: Response, consumed: usize, permits_reuse: bool },
    Failed(Error),
    Eof { response: Option<Response>, permits_reuse: bool },
}

/// What a [`FuzzDecodeOutcome`] says.
#[allow(inconsistent_fields)]
#[verifier::ext_equal]
pub enum OutcomeView {
    Complete { response: ResponseView, consumed: nat, permits_reuse: bool },
    Failed(ErrorView),
    Eof { response: Option<ResponseView>, permits_reuse: bool },
}

impl View for FuzzDecodeOutcome {
    type V = OutcomeView;

    open spec fn view(&self) -> OutcomeView {
        match self {
            FuzzDecodeOutcome::Complete { response, consumed, permits_reuse } =>
                OutcomeView::Complete {
                response: response@,
                consumed: *consumed as nat,
                permits_reuse: *permits_reuse,
            },
            FuzzDecodeOutcome::Failed(error) => OutcomeView::Failed(error@),
            FuzzDecodeOutcome::Eof { response, permits_reuse } => OutcomeView::Eof {
                response: match response {
                    Some(response) => Some(response@),
                    None => None,
                },
                permits_reuse: *permits_reuse,
            },
        }
    }
}

/// How a message is decoded that the stream ends behind: a matter of its bytes alone.
pub open spec fn decoded(wire: Seq<u8>, response_to_head: bool, limits: HttpLimits) -> OutcomeView {
    finish_decoding(run(fresh_decoder(response_to_head, limits), wire))
}

/// How a message is decoded, given where the run over its bytes stopped.
pub open spec fn finish_decoding(stopped: (DecoderView, RunEnd)) -> OutcomeView {
    match stopped {
        (next, RunEnd::Done { response, consumed }) => OutcomeView::Complete {
            response,
            consumed,
            permits_reuse: next.frame.permits_reuse,
        },
        (_, RunEnd::Failed(error)) => OutcomeView::Failed(error),
        (next, RunEnd::More) => match eof_outcome(next).1 {
            Ok(response) => OutcomeView::Eof { response, permits_reuse: next.frame.permits_reuse },
            Err(error) => OutcomeView::Failed(error),
        },
    }
}

/// How a message is cut into fragments.
#[derive(Clone, Copy, Debug, PartialEq, Eq, Structural)]
pub enum Schedule {
    /// Everything at once.
    Whole,
    /// One byte at a time.
    Bytewise,
    /// Two lengths in turn, each between one and sixty-four.
    Irregular { even: u8, odd: u8 },
}

/// The length of the next fragment.
pub open spec fn fragment_len(schedule: Schedule, odd_turn: bool, remaining: nat) -> nat {
    let wanted: nat = match schedule {
        Schedule::Whole => remaining,
        Schedule::Bytewise => 1,
        Schedule::Irregular { even, odd } => (if odd_turn {
            odd % 64 + 1
        } else {
            even % 64 + 1
        }) as nat,
    };
    if wanted < remaining {
        wanted
    } else {
        remaining
    }
}

/// The length of the next fragment.
pub fn next_fragment(schedule: Schedule, odd_turn: bool, remaining: usize) -> (result: usize)
    requires
        remaining > 0,
    ensures
        result == fragment_len(schedule, odd_turn, remaining as nat),
        0 < result <= remaining,
{
    let wanted: usize = match schedule {
        Schedule::Whole => remaining,
        Schedule::Bytewise => 1,
        Schedule::Irregular { even, odd } => {
            let selector: u8 = if odd_turn {
                odd
            } else {
                even
            };
            (selector % 64) as usize + 1
        },
    };
    if wanted < remaining {
        wanted
    } else {
        remaining
    }
}

/// Decodes a message in fragments. However it is cut, the outcome is that of the whole message.
pub fn fuzz_decode_with(
    wire: &[u8],
    response_to_head: bool,
    limits: HttpLimits,
    schedule: Schedule,
) -> (result: FuzzDecodeOutcome)
    ensures
        result@ == decoded(wire@, response_to_head, limits),
{
    let mut decoder = ResponseDecoder::new(response_to_head, limits);
    let ghost start = decoder@;
    let mut offset: usize = 0;
    let mut odd_turn = false;
    assert(wire@.take(0) =~= Seq::empty());
    while offset < wire.len()
        invariant
            start == fresh_decoder(response_to_head, limits),
            decoder.wf(),
            !(decoder@.frame.state is Complete),
            offset <= wire@.len(),
            run(start, wire@.take(offset as int)) == (decoder@, RunEnd::More),
        decreases wire@.len() - offset,
    {
        let fragment = next_fragment(schedule, odd_turn, wire.len() - offset);
        odd_turn = !odd_turn;
        let ghost before = decoder@;
        let part = &wire[offset..offset + fragment];
        proof {
            let seen = wire@.take(offset as int);
            assert(wire@.take(offset + fragment) =~= seen + part@);
            lemma_run_concat(start, seen, part@);
            assert(wire@ =~= wire@.take(offset + fragment) + wire@.skip(offset + fragment));
            lemma_run_concat(start, wire@.take(offset + fragment), wire@.skip(offset + fragment));
            lemma_run_within_limits(before, part@);
            if run(before, part@).1 is More {
                lemma_stays_incomplete(before, part@);
            }
        }
        match decoder.ingest(part) {
            Ok(progress) => {
                if let Some(response) = progress.response {
                    return FuzzDecodeOutcome::Complete {
                        response,
                        consumed: offset + progress.consumed,
                        permits_reuse: progress.permits_reuse,
                    };
                }
                offset = offset + progress.consumed;
            },
            Err(error) => {
                return FuzzDecodeOutcome::Failed(error);
            },
        }
    }
    assert(wire@.take(offset as int) =~= wire@);
    let permits_reuse = decoder.permits_reuse;
    match decoder.eof() {
        Ok(response) => FuzzDecodeOutcome::Eof { response, permits_reuse },
        Err(error) => FuzzDecodeOutcome::Failed(error),
    }
}

pub proof fn lemma_stays_incomplete(decoder: DecoderView, bytes: Seq<u8>)
    requires
        decoder_ok(decoder),
        !(decoder.frame.state is Complete),
        run(decoder, bytes).1 is More,
    ensures
        !(run(decoder, bytes).0.frame.state is Complete),
    decreases bytes.len(),
{
    if bytes.len() > 0 {
        crate::decoder::lemma_decoder_step_ok(decoder, bytes[0]);
        let next = crate::decoder::decoder_step(decoder, bytes[0]).0;
        lemma_stays_incomplete(next, bytes.skip(1));
    }
}

/// The response that a message decodes to, where `eof` says whether the stream ends behind it.
pub open spec fn decoded_response(
    wire: Seq<u8>,
    response_to_head: bool,
    eof: bool,
    limits: HttpLimits,
) -> Result<ResponseView, ErrorView> {
    match run(fresh_decoder(response_to_head, limits), wire) {
        (_, RunEnd::Done { response, .. }) => Ok(response),
        (_, RunEnd::Failed(error)) => Err(error),
        (next, RunEnd::More) => if !eof {
            Err(unfinished())
        } else {
            match eof_outcome(next).1 {
                Ok(Some(response)) => Ok(response),
                Ok(None) => Err(unfinished()),
                Err(error) => Err(error),
            }
        },
    }
}

/// The message stops before the response does.
pub open spec fn unfinished() -> ErrorView {
    plain_error(ErrorKind::Internal, "the response did not reach terminal framing"@)
}

/// Decodes a message one byte at a time.
pub fn decode_fragmented(response_to_head: bool, bytes: &[u8], eof: bool, limits: HttpLimits) -> (
    result: Result<Response, Error>)
    ensures
        match result {
            Ok(response) => decoded_response(bytes@, response_to_head, eof, limits) == Ok::<
                ResponseView,
                ErrorView,
            >(response@),
            Err(error) => decoded_response(bytes@, response_to_head, eof, limits) == Err::<
                ResponseView,
                ErrorView,
            >(error@),
        },
{
    let mut decoder = ResponseDecoder::new(response_to_head, limits);
    let mut offset: usize = 0;
    assert(bytes@.take(0) =~= Seq::empty());
    while offset < bytes.len()
        invariant
            decoder.wf(),
            !(decoder@.frame.state is Complete),
            offset <= bytes@.len(),
            run(fresh_decoder(response_to_head, limits), bytes@.take(offset as int)) == (
                decoder@,
                RunEnd::More,
            ),
        decreases bytes@.len() - offset,
    {
        proof {
            lemma_next_fragment(
                fresh_decoder(response_to_head, limits),
                decoder@,
                bytes@,
                offset as int,
                offset + 1,
            );
        }
        if let Some(response) = decoder.ingest(&bytes[offset..offset + 1])?.response {
            return Ok(response);
        }
        offset += 1;
    }
    assert(bytes@.take(offset as int) =~= bytes@);
    finish_at_eof(decoder, eof)
}

/// Decodes a message in two parts.
pub fn decode_at_split(bytes: &[u8], split: usize, eof: bool, limits: HttpLimits) -> (result: Result<
    Response,
    Error,
>)
    requires
        split <= bytes@.len(),
    ensures
        match result {
            Ok(response) => decoded_response(bytes@, false, eof, limits) == Ok::<
                ResponseView,
                ErrorView,
            >(response@),
            Err(error) => decoded_response(bytes@, false, eof, limits) == Err::<
                ResponseView,
                ErrorView,
            >(error@),
        },
{
    let mut decoder = ResponseDecoder::new(false, limits);
    let ghost start = decoder@;
    proof {
        assert(bytes@.take(0) =~= Seq::empty());
        lemma_next_fragment(start, start, bytes@, 0, split as int);
    }
    if let Some(response) = decoder.ingest(&bytes[0..split])?.response {
        return Ok(response);
    }
    proof {
        lemma_next_fragment(start, decoder@, bytes@, split as int, bytes@.len() as int);
        assert(bytes@.take(bytes@.len() as int) =~= bytes@);
    }
    if let Some(response) = decoder.ingest(&bytes[split..bytes.len()])?.response {
        return Ok(response);
    }
    finish_at_eof(decoder, eof)
}

/// Takes the end of the stream behind all bytes, where it is there.
fn finish_at_eof(decoder: ResponseDecoder, eof: bool) -> (result: Result<Response, Error>)
    requires
        decoder.wf(),
    ensures
        match result {
            Ok(response) => eof && eof_outcome(decoder@).1 == Ok::<Option<ResponseView>, ErrorView>(
                Some(response@),
            ),
            Err(error) => if eof && !(eof_outcome(decoder@).1 matches Ok(None)) {
                eof_outcome(decoder@).1 == Err::<Option<ResponseView>, ErrorView>(error@)
            } else {
                error@ == unfinished()
            },
        },
{
    let mut decoder = decoder;
    if eof {
        if let Some(response) = decoder.eof()? {
            return Ok(response);
        }
    }
    Err(Error::new(ErrorKind::Internal, "the response did not reach terminal framing"))
}

/// What the next fragment of a message does, seen from its start.
pub proof fn lemma_next_fragment(
    start: DecoderView,
    decoder: DecoderView,
    wire: Seq<u8>,
    from: int,
    to: int,
)
    requires
        decoder_ok(decoder),
        !(decoder.frame.state is Complete),
        0 <= from <= to <= wire.len(),
        run(start, wire.take(from)) == (decoder, RunEnd::More),
    ensures
        ({
            let part = wire.subrange(from, to);
            let (next, end) = run(decoder, part);
            &&& end is More ==> run(start, wire.take(to)) == (next, end) && !(
            next.frame.state is Complete)
            &&& end matches RunEnd::Failed(error) ==> run(start, wire) == (next, end)
            &&& end matches RunEnd::Done { response, consumed } ==> {
                &&& run(start, wire) == (
                    next,
                    RunEnd::Done { response, consumed: from as nat + consumed },
                )
                &&& consumed <= part.len()
            }
        }),
{
    let part = wire.subrange(from, to);
    assert(wire.take(to) =~= wire.take(from) + part);
    lemma_run_concat(start, wire.take(from), part);
    assert(wire =~= wire.take(to) + wire.skip(to));
    lemma_run_concat(start, wire.take(to), wire.skip(to));
    lemma_run_within_limits(decoder, part);
    if run(decoder, part).1 is More {
        lemma_stays_incomplete(decoder, part);
    }
}

/// Decodes the escapes `\r`, `\n` and `\\` of a readable seed; everything else stands for itself.
pub open spec fn unescaped(bytes: Seq<u8>) -> Seq<u8>
    decreases bytes.len(),
{
    if bytes.len() == 0 {
        Seq::empty()
    } else if bytes.len() > 1 && bytes[0] == 0x5c && escaped(bytes[1]) is Some {
        seq![escaped(bytes[1])->0] + unescaped(bytes.skip(2))
    } else {
        seq![bytes[0]] + unescaped(bytes.skip(1))
    }
}

/// What a letter behind a backslash stands for.
pub open spec fn escaped(letter: u8) -> Option<u8> {
    if letter == 0x72 {
        Some(0x0d)
    } else if letter == 0x6e {
        Some(0x0a)
    } else if letter == 0x5c {
        Some(0x5c)
    } else {
        None
    }
}

/// Decodes the escapes of a readable seed.
pub fn decode_fuzz_seed_escapes(bytes: &[u8]) -> (result: Vec<u8>)
    ensures
        result@ == unescaped(bytes@),
{
    let mut decoded: Vec<u8> = Vec::new();
    let mut index: usize = 0;
    assert(bytes@.skip(0) =~= bytes@);
    assert(decoded@ + unescaped(bytes@) =~= unescaped(bytes@));
    while index < bytes.len()
        invariant
            index <= bytes@.len(),
            unescaped(bytes@) == decoded@ + unescaped(bytes@.skip(index as int)),
        decreases bytes@.len() - index,
    {
        let ghost rest = bytes@.skip(index as int);
        let ghost before = decoded@;
        let mut used: usize = 1;
        let mut byte: u8 = bytes[index];
        if byte == 0x5c && bytes.len() - index > 1 {
            let letter: u8 = bytes[index + 1];
            if letter == 0x72 {
                byte = 0x0d;
                used = 2;
            } else if letter == 0x6e {
                byte = 0x0a;
                used = 2;
            } else if letter == 0x5c {
                byte = 0x5c;
                used = 2;
            }
        }
        decoded.push(byte);
        proof {
            assert(rest.skip(used as int) =~= bytes@.skip(index + used));
            assert(before + unescaped(rest) =~= decoded@ + unescaped(rest.skip(used as int)));
        }
        index += used;
    }
    assert(bytes@.skip(index as int) =~= Seq::<u8>::empty());
    assert(decoded@ =~= unescaped(bytes@));
    decoded
}

/// The readable form of a message: a carriage return, a line feed and a backslash are written with a
/// backslash in front.
pub open spec fn readable(bytes: Seq<u8>) -> Seq<u8>
    decreases bytes.len(),
{
    if bytes.len() == 0 {
        Seq::empty()
    } else {
        (if bytes[0] == 0x0d {
            seq![0x5cu8, 0x72]
        } else if bytes[0] == 0x0a {
            seq![0x5cu8, 0x6e]
        } else if bytes[0] == 0x5c {
            seq![0x5cu8, 0x5c]
        } else {
            seq![bytes[0]]
        }) + readable(bytes.skip(1))
    }
}

/// Every message has a readable form, and decoding its escapes gives the message back.
pub proof fn lemma_readable_messages_are_decoded(bytes: Seq<u8>)
    ensures
        unescaped(readable(bytes)) == bytes,
    decreases bytes.len(),
{
    if bytes.len() > 0 {
        let rest = readable(bytes.skip(1));
        let text = readable(bytes);
        lemma_readable_messages_are_decoded(bytes.skip(1));
        if bytes[0] == 0x0d || bytes[0] == 0x0a || bytes[0] == 0x5c {
            assert(text.skip(2) =~= rest);
        } else {
            assert(text.skip(1) =~= rest);
        }
        assert(seq![bytes[0]] + bytes.skip(1) =~= bytes);
    }
}

/// A fragment is never empty and never longer than what is left: all of it, one byte, or one more than
/// the remainder of a control byte by 64.
pub proof fn lemma_fragments_make_progress(schedule: Schedule, odd_turn: bool, remaining: nat)
    requires
        remaining > 0,
    ensures
        0 < fragment_len(schedule, odd_turn, remaining) <= remaining,
        schedule is Whole ==> fragment_len(schedule, odd_turn, remaining) == remaining,
        schedule is Bytewise ==> fragment_len(schedule, odd_turn, remaining) == 1,
        schedule matches Schedule::Irregular { even, odd } ==> (remaining >= 64 ==> fragment_len(
            schedule,
            odd_turn,
            remaining,
        ) == 1 + (if odd_turn {
            odd % 64
        } else {
            even % 64
        })),
{
}

/// The limits that three control bytes select.
pub open spec fn selected_limits(body: u8, header: u8, count: u8) -> HttpLimits {
    HttpLimits {
        body_bytes: (body * 64) as usize,
        header_bytes: (if header == 0 {
            1
        } else {
            header * 16
        }) as usize,
        header_count: (count % 64 + 1) as usize,
    }
}

pub fn select_limits(body: u8, header: u8, count: u8) -> (result: HttpLimits)
    ensures
        result == selected_limits(body, header, count),
{
    HttpLimits {
        body_bytes: body as usize * 64,
        header_bytes: if header == 0 {
            1
        } else {
            header as usize * 16
        },
        header_count: (count % 64) as usize + 1,
    }
}

/// The message behind the control bytes; a flag says whether it is written with escapes.
pub open spec fn selected_wire(flags: u8, encoded: Seq<u8>) -> Seq<u8> {
    if flags & 2 != 0 {
        unescaped(encoded)
    } else {
        encoded
    }
}

pub fn select_wire(flags: u8, encoded: &[u8]) -> (result: Vec<u8>)
    ensures
        result@ == selected_wire(flags, encoded@),
{
    if flags & 2 != 0 {
        decode_fuzz_seed_escapes(encoded)
    } else {
        crate::types::copy_bytes(encoded)
    }
}

/// How one message was decoded under three schedules.
#[derive(Debug)]
pub struct FuzzReport {
    pub whole: FuzzDecodeOutcome,
    pub bytewise: FuzzDecodeOutcome,
    pub irregular: FuzzDecodeOutcome,
}

/// Decodes a fuzzed message under three schedules. The first six bytes select limits and an
/// irregular schedule; the rest is the message. All three outcomes are that of the whole message.
pub fn fuzz_response_decoder(data: &[u8]) -> (result: Option<FuzzReport>)
    ensures
        result is None <==> data@.len() < 6,
        result matches Some(report) ==> {
            let wire = selected_wire(data@[0], data@.skip(6));
            let limits = selected_limits(data@[1], data@[2], data@[3]);
            let outcome = decoded(wire, data@[0] & 1 != 0, limits);
            &&& report.whole@ == outcome
            &&& report.bytewise@ == outcome
            &&& report.irregular@ == outcome
        },
{
    if data.len() < 6 {
        return None;
    }
    let encoded = &data[6..data.len()];
    assert(encoded@ =~= data@.skip(6));
    let wire = select_wire(data[0], encoded);
    let response_to_head = data[0] & 1 != 0;
    let limits = select_limits(data[1], data[2], data[3]);
    let whole = fuzz_decode_with(wire.as_slice(), response_to_head, limits, Schedule::Whole);
    let bytewise = fuzz_decode_with(wire.as_slice(), response_to_head, limits, Schedule::Bytewise);
    let irregular = fuzz_decode_with(
        wire.as_slice(),
        response_to_head,
        limits,
        Schedule::Irregular { even: data[4], odd: data[5] },
    );
    Some(FuzzReport { whole, bytewise, irregular })
}

/// A message decodes to its response where it is complete, or where the stream ends it; one that stops
/// short without an end of the stream is unfinished.
pub proof fn lemma_messages_decode_to_their_response(
    wire: Seq<u8>,
    response_to_head: bool,
    limits: HttpLimits,
)
    ensures
        ({
            let (next, end) = run(fresh_decoder(response_to_head, limits), wire);
            let kept = decoded_response(wire, response_to_head, false, limits);
            let closed = decoded_response(wire, response_to_head, true, limits);
            &&& end matches RunEnd::Done { response, consumed } ==> {
                &&& kept == Ok::<ResponseView, ErrorView>(response)
                &&& closed == Ok::<ResponseView, ErrorView>(response)
                &&& decoded(wire, response_to_head, limits) == (OutcomeView::Complete {
                    response,
                    consumed,
                    permits_reuse: next.frame.permits_reuse,
                })
            }
            &&& end matches RunEnd::Failed(error) ==> {
                &&& kept == Err::<ResponseView, ErrorView>(error)
                &&& closed == Err::<ResponseView, ErrorView>(error)
                &&& decoded(wire, response_to_head, limits) == OutcomeView::Failed(error)
            }
            &&& end is More ==> {
                &&& kept is Err
                &&& next.frame.state is CloseDelimited ==> closed == Ok::<ResponseView, ErrorView>(
                    ResponseView { status: next.status->0, headers: next.headers, body: next.body },
                )
                &&& !(next.frame.state is CloseDelimited) ==> closed is Err
            }
        }),
{
}

/// What the control bytes select: up to 255 times 64 bytes of body, up to 255 times 16 bytes of heads
/// but at least one, and from one to 64 fields.
pub proof fn lemma_control_bytes_select_limits(body: u8, header: u8, count: u8)
    ensures
        selected_limits(body, header, count).body_bytes == body * 64,
        header > 0 ==> selected_limits(body, header, count).header_bytes == header * 16,
        header == 0 ==> selected_limits(body, header, count).header_bytes == 1,
        1 <= selected_limits(body, header, count).header_count <= 64,
        count < 64 ==> selected_limits(body, header, count).header_count == count + 1,
{
}

} // verus!
