//! Streamed request bodies: the queue that a producer fills, and its framing on the wire.

use crate::chunk::{
    chunk_frame, crlf, hex_char, hex_text, hex_value, is_hex, last_chunk, lemma_chunk_line_of_digits,
    lemma_hex_text,
};
use crate::decoder::{lemma_run_concat, run, DecoderView, RunEnd};
use crate::decoder_laws::{
    awaits_chunk, chunk_bytes, chunk_payload, is_wire_chunk, lemma_empty_trailers, lemma_run_chunked,
    WireChunk,
};
use crate::framing::has_crlf;
use crate::request::SerializedRequest;
use crate::types::{
    plain_error, transport_error, Error, ErrorKind, ErrorView, ResponseView, TransportStage,
    UploadFraming,
};
use std::collections::VecDeque;
use vstd::prelude::*;
use vstd::string::*;

verus! {

/// Whether the producer goes on.
#[derive(Debug)]
pub enum UploadEnd {
    Open,
    Finished,
    Failed(Error),
}

/// A streamed request body: chunks that a producer queued and that have not been sent yet.
#[derive(Debug)]
pub struct UploadBody {
    pub framing: UploadFraming,
    pub capacity: usize,
    pub chunks: VecDeque<Vec<u8>>,
    /// How many bytes are queued.
    pub queued: usize,
    /// How many bytes of the announced length are yet to come.
    pub remaining: usize,
    pub end: UploadEnd,
    pub closed: bool,
}

/// What an [`UploadEnd`] says.
#[verifier::ext_equal]
pub enum UploadEndView {
    Open,
    Finished,
    Failed(ErrorView),
}

impl View for UploadEnd {
    type V = UploadEndView;

    open spec fn view(&self) -> UploadEndView {
        match self {
            UploadEnd::Open => UploadEndView::Open,
            UploadEnd::Finished => UploadEndView::Finished,
            UploadEnd::Failed(error) => UploadEndView::Failed(error@),
        }
    }
}

/// What an [`UploadBody`] holds.
#[verifier::ext_equal]
pub struct UploadView {
    pub framing: UploadFraming,
    pub capacity: usize,
    pub chunks: Seq<Seq<u8>>,
    pub queued: usize,
    pub remaining: usize,
    pub end: UploadEndView,
    pub closed: bool,
}

impl View for UploadBody {
    type V = UploadView;

    open spec fn view(&self) -> UploadView {
        UploadView {
            framing: self.framing,
            capacity: self.capacity,
            chunks: Seq::new(self.chunks@.len(), |i: int| self.chunks@[i]@),
            queued: self.queued,
            remaining: self.remaining,
            end: self.end@,
            closed: self.closed,
        }
    }
}

/// No queued chunk is empty, and what is queued is counted and keeps to the capacity.
pub open spec fn upload_ok(body: UploadView) -> bool {
    &&& forall|i: int| 0 <= i < body.chunks.len() ==> (#[trigger] body.chunks[i]).len() > 0
    &&& body.queued == joined(body.chunks).len()
    &&& body.queued <= body.capacity
}

/// What consecutive chunks carry.
pub open spec fn joined(chunks: Seq<Seq<u8>>) -> Seq<u8>
    decreases chunks.len(),
{
    if chunks.len() == 0 {
        Seq::empty()
    } else {
        chunks[0] + joined(chunks.skip(1))
    }
}

proof fn lemma_joined_push(chunks: Seq<Seq<u8>>, chunk: Seq<u8>)
    ensures
        joined(chunks.push(chunk)) == joined(chunks) + chunk,
    decreases chunks.len(),
{
    if chunks.len() == 0 {
        let one = chunks.push(chunk);
        assert(joined(one.skip(1)) =~= Seq::<u8>::empty());
        assert(one[0] + joined(one.skip(1)) =~= joined(chunks) + chunk);
    } else {
        assert(chunks.push(chunk).skip(1) =~= chunks.skip(1).push(chunk));
        lemma_joined_push(chunks.skip(1), chunk);
        assert(joined(chunks.push(chunk)) =~= joined(chunks) + chunk);
    }
}

/// How many bytes a body has announced.
pub open spec fn announced(framing: UploadFraming) -> usize {
    match framing {
        UploadFraming::Fixed(length) => length,
        UploadFraming::Chunked => 0,
    }
}

/// Whether a body takes a chunk: it is open, the chunk fits into the queue, and it does not exceed an
/// announced length.
pub open spec fn takes(body: UploadView, chunk: Seq<u8>) -> bool {
    &&& !body.closed
    &&& body.end is Open
    &&& body.queued + chunk.len() <= body.capacity
    &&& body.framing is Fixed ==> chunk.len() <= body.remaining
}

/// The body with one more chunk. An empty chunk leaves no trace.
pub open spec fn with_chunk(body: UploadView, chunk: Seq<u8>) -> UploadView {
    UploadView {
        chunks: if chunk.len() == 0 {
            body.chunks
        } else {
            body.chunks.push(chunk)
        },
        queued: (body.queued + chunk.len()) as usize,
        remaining: if body.framing is Fixed {
            (body.remaining - chunk.len()) as usize
        } else {
            body.remaining
        },
        ..body
    }
}

/// The body without its oldest chunk.
pub open spec fn without_first(body: UploadView) -> UploadView {
    UploadView {
        chunks: body.chunks.skip(1),
        queued: (body.queued - body.chunks[0].len()) as usize,
        ..body
    }
}

/// A body that ended before its announced length.
pub open spec fn too_short() -> ErrorView {
    transport_error(
        TransportStage::Send,
        "the streamed upload body ended before its announced length"@,
    )
}

/// The body after its producer said that it is complete. The first end stands, and a body that is
/// shorter than announced has failed.
pub open spec fn body_finished(body: UploadView) -> UploadView {
    UploadView {
        end: if !(body.end is Open) {
            body.end
        } else if body.framing is Fixed && body.remaining > 0 {
            UploadEndView::Failed(too_short())
        } else {
            UploadEndView::Finished
        },
        ..body
    }
}

/// What the queue has to offer.
#[derive(Debug)]
pub enum UploadPoll {
    Chunk(Vec<u8>),
    Pending,
    Finished,
    Failed(Error),
}

impl UploadBody {
    pub open spec fn wf(&self) -> bool {
        upload_ok(self@)
    }

    /// An empty queue for up to `capacity` bytes at a time.
    pub fn new(framing: UploadFraming, capacity: usize) -> (result: Self)
        ensures
            result.wf(),
            result@ == (UploadView {
                framing,
                capacity,
                chunks: Seq::empty(),
                queued: 0,
                remaining: announced(framing),
                end: UploadEndView::Open,
                closed: false,
            }),
    {
        let remaining: usize = match framing {
            UploadFraming::Fixed(length) => length,
            UploadFraming::Chunked => 0,
        };
        let body = UploadBody {
            framing,
            capacity,
            chunks: VecDeque::new(),
            queued: 0,
            remaining,
            end: UploadEnd::Open,
            closed: false,
        };
        assert(body@.chunks =~= Seq::empty());
        body
    }

    /// Queues a chunk where there is room for it and it does not exceed an announced length; otherwise
    /// it comes back. An empty chunk is taken and leaves no trace.
    pub fn push(&mut self, chunk: Vec<u8>) -> (result: Result<(), Vec<u8>>)
        requires
            old(self).wf(),
        ensures
            final(self).wf(),
            match result {
                Ok(_) => takes(old(self)@, chunk@) && final(self)@ == with_chunk(
                    old(self)@,
                    chunk@,
                ),
                Err(refused) => !takes(old(self)@, chunk@) && refused == chunk && final(self)@
                    == old(self)@,
            },
    {
        let open = match self.end {
            UploadEnd::Open => true,
            _ => false,
        };
        let fixed = match self.framing {
            UploadFraming::Fixed(_) => true,
            UploadFraming::Chunked => false,
        };
        if self.closed || !open || chunk.len() > self.capacity - self.queued || (fixed
            && chunk.len() > self.remaining) {
            return Err(chunk);
        }
        let ghost bytes = chunk@;
        self.queued = self.queued + chunk.len();
        if fixed {
            self.remaining = self.remaining - chunk.len();
        }
        if chunk.len() > 0 {
            self.chunks.push_back(chunk);
            proof {
                lemma_joined_push(old(self)@.chunks, bytes);
                assert(self@.chunks =~= old(self)@.chunks.push(bytes));
            }
        } else {
            assert(self@.chunks =~= old(self)@.chunks);
        }
        Ok(())
    }

    /// Ends the body, and reports whether that was a good end. The first end stands.
    pub fn finish(&mut self) -> (result: bool)
        requires
            old(self).wf(),
        ensures
            final(self).wf(),
            final(self)@ == body_finished(old(self)@),
            result == (old(self)@.end is Open && final(self)@.end is Finished),
    {
        let fixed = match self.framing {
            UploadFraming::Fixed(_) => true,
            UploadFraming::Chunked => false,
        };
        let mut good = false;
        if let UploadEnd::Open = self.end {
            if fixed && self.remaining > 0 {
                self.end = UploadEnd::Failed(
                    Error::transport(
                        TransportStage::Send,
                        "the streamed upload body ended before its announced length",
                    ),
                );
            } else {
                self.end = UploadEnd::Finished;
                good = true;
            }
        }
        assert(self@.chunks =~= old(self)@.chunks);
        good
    }

    /// Ends the body with an error. The first end stands.
    pub fn fail(&mut self, error: Error)
        requires
            old(self).wf(),
        ensures
            final(self).wf(),
            final(self)@ == (UploadView {
                end: if old(self)@.end is Open {
                    UploadEndView::Failed(error@)
                } else {
                    old(self)@.end
                },
                ..old(self)@
            }),
    {
        if let UploadEnd::Open = self.end {
            self.end = UploadEnd::Failed(error);
        }
        assert(self@.chunks =~= old(self)@.chunks);
    }

    /// Takes the oldest chunk; how the body ended shows once none is left.
    pub fn try_pop(&mut self) -> (result: UploadPoll)
        requires
            old(self).wf(),
        ensures
            final(self).wf(),
            match result {
                UploadPoll::Chunk(chunk) => {
                    &&& old(self)@.chunks.len() > 0
                    &&& chunk@ == old(self)@.chunks[0]
                    &&& final(self)@ == without_first(old(self)@)
                },
                UploadPoll::Pending => old(self)@.chunks.len() == 0 && old(self)@.end is Open
                    && final(self)@ == old(self)@,
                UploadPoll::Finished => old(self)@.chunks.len() == 0 && old(self)@.end is Finished
                    && final(self)@ == old(self)@,
                UploadPoll::Failed(error) => old(self)@.chunks.len() == 0 && old(self)@.end
                    == UploadEndView::Failed(error@) && final(self)@ == old(self)@,
            },
    {
        match self.chunks.pop_front() {
            Some(chunk) => {
                assert(self@.chunks =~= old(self)@.chunks.skip(1));
                assert(old(self)@.chunks[0] == chunk@);
                self.queued = self.queued - chunk.len();
                UploadPoll::Chunk(chunk)
            },
            None => {
                assert(self@.chunks =~= old(self)@.chunks);
                match &self.end {
                    UploadEnd::Open => UploadPoll::Pending,
                    UploadEnd::Finished => UploadPoll::Finished,
                    UploadEnd::Failed(error) => UploadPoll::Failed(error.clone()),
                }
            },
        }
    }

    /// Tells the producer that no more is wanted.
    pub fn close(&mut self)
        requires
            old(self).wf(),
        ensures
            final(self).wf(),
            final(self)@ == (UploadView { closed: true, ..old(self)@ }),
    {
        self.closed = true;
        assert(self@.chunks =~= old(self)@.chunks);
    }

    pub fn framing(&self) -> (result: UploadFraming)
        ensures
            result == self@.framing,
    {
        self.framing
    }

    pub fn queue_capacity(&self) -> (result: usize)
        ensures
            result == self@.capacity,
    {
        self.capacity
    }
}

/// A streamed request body on its way to the wire.
#[derive(Debug)]
pub struct NativeUpload {
    pub body: UploadBody,
    pub framing: UploadFraming,
    pub producer_finished: bool,
    pub pending_wire: Option<Vec<u8>>,
}

/// What a [`NativeUpload`] holds.
#[verifier::ext_equal]
pub struct NativeUploadView {
    pub body: UploadView,
    pub framing: UploadFraming,
    pub producer_finished: bool,
    pub pending_wire: Option<Seq<u8>>,
}

impl View for NativeUpload {
    type V = NativeUploadView;

    open spec fn view(&self) -> NativeUploadView {
        NativeUploadView {
            body: self.body@,
            framing: self.framing,
            producer_finished: self.producer_finished,
            pending_wire: match self.pending_wire {
                Some(wire) => Some(wire@),
                None => None,
            },
        }
    }
}

/// What goes to the wire next.
#[derive(Debug)]
pub enum UploadWire {
    Pending,
    Bytes(Vec<u8>),
    Complete,
}

/// What an [`UploadWire`] says.
#[verifier::ext_equal]
pub enum UploadWireView {
    Pending,
    Bytes(Seq<u8>),
    Complete,
}

impl View for UploadWire {
    type V = UploadWireView;

    open spec fn view(&self) -> UploadWireView {
        match self {
            UploadWire::Pending => UploadWireView::Pending,
            UploadWire::Bytes(bytes) => UploadWireView::Bytes(bytes@),
            UploadWire::Complete => UploadWireView::Complete,
        }
    }
}

/// A chunk as it goes to the wire.
pub open spec fn framed(framing: UploadFraming, chunk: Seq<u8>) -> Seq<u8> {
    match framing {
        UploadFraming::Fixed(_) => chunk,
        UploadFraming::Chunked => chunk_frame(chunk),
    }
}

/// What goes to the wire behind the last chunk.
pub open spec fn terminator(framing: UploadFraming) -> Seq<u8> {
    match framing {
        UploadFraming::Fixed(_) => Seq::empty(),
        UploadFraming::Chunked => last_chunk(),
    }
}

/// What taking the next chunk, or noticing the end, does.
pub open spec fn prepared(upload: NativeUploadView) -> Result<NativeUploadView, ErrorView> {
    if upload.body.chunks.len() > 0 {
        let wire = framed(upload.framing, upload.body.chunks[0]);
        if wire.len() > usize::MAX {
            Err(
                plain_error(
                    ErrorKind::Internal,
                    "native chunked upload framing length overflowed"@,
                ),
            )
        } else {
            Ok(
                NativeUploadView {
                    body: without_first(upload.body),
                    pending_wire: Some(wire),
                    ..upload
                },
            )
        }
    } else {
        match upload.body.end {
            UploadEndView::Open => Ok(upload),
            UploadEndView::Finished => Ok(
                NativeUploadView {
                    producer_finished: true,
                    pending_wire: match upload.framing {
                        UploadFraming::Fixed(_) => upload.pending_wire,
                        UploadFraming::Chunked => Some(last_chunk()),
                    },
                    ..upload
                },
            ),
            UploadEndView::Failed(error) => Err(error),
        }
    }
}

/// The upload after it took a chunk, if there was one, and could not use it.
pub open spec fn popped(upload: NativeUploadView) -> NativeUploadView {
    if upload.body.chunks.len() > 0 {
        NativeUploadView {
            body: without_first(upload.body),
            ..upload
        }
    } else {
        upload
    }
}

/// The upload with something in hand, where there is something.
pub open spec fn readied(upload: NativeUploadView) -> Result<NativeUploadView, ErrorView> {
    if upload.pending_wire is None && !upload.producer_finished {
        prepared(upload)
    } else {
        Ok(upload)
    }
}

/// What is sent next, and what is left. Bytes that do not fit into `capacity` wait.
pub open spec fn sent_next(upload: NativeUploadView, capacity: Option<usize>) -> Result<
    (NativeUploadView, UploadWireView),
    ErrorView,
> {
    match readied(upload) {
        Err(error) => Err(error),
        Ok(ready) => match ready.pending_wire {
            Some(wire) => if capacity is Some && wire.len() > capacity->0 {
                Ok((ready, UploadWireView::Pending))
            } else {
                Ok(
                    (
                        NativeUploadView { pending_wire: None, ..ready },
                        UploadWireView::Bytes(wire),
                    ),
                )
            },
            None => if ready.producer_finished {
                Ok((ready, UploadWireView::Complete))
            } else {
                Ok((ready, UploadWireView::Pending))
            },
        },
    }
}

fn hex_digit_byte(digit: usize) -> (result: u8)
    requires
        digit < 16,
    ensures
        result == hex_char(digit as nat),
{
    if digit < 10 {
        0x30 + digit as u8
    } else {
        0x41 + (digit - 10) as u8
    }
}

/// Appends the upper-case hexadecimal digits of `number`.
pub fn append_hex(output: &mut Vec<u8>, number: usize)
    ensures
        final(output)@ == old(output)@ + hex_text(number as nat),
    decreases number,
{
    if number >= 16 {
        append_hex(output, number / 16);
    }
    output.push(hex_digit_byte(number % 16));
    assert(output@ =~= old(output)@ + hex_text(number as nat));
}

impl NativeUpload {
    pub open spec fn wf(&self) -> bool {
        self.body.wf()
    }

    pub fn new(body: UploadBody) -> (result: Self)
        requires
            body.wf(),
        ensures
            result.wf(),
            result@ == (NativeUploadView {
                body: body@,
                framing: body@.framing,
                producer_finished: false,
                pending_wire: None,
            }),
    {
        let framing = body.framing();
        NativeUpload { body, framing, producer_finished: false, pending_wire: None }
    }

    /// Takes the next chunk, or notices the end.
    pub fn prepare_wire(&mut self) -> (result: Result<(), Error>)
        requires
            old(self).wf(),
            old(self)@.pending_wire is None,
        ensures
            final(self).wf(),
            match result {
                Ok(_) => prepared(old(self)@) == Ok::<NativeUploadView, ErrorView>(final(self)@),
                Err(error) => prepared(old(self)@) == Err::<NativeUploadView, ErrorView>(error@)
                    && final(self)@ == popped(old(self)@),
            },
    {
        match self.body.try_pop() {
            UploadPoll::Chunk(chunk) => match self.framing {
                UploadFraming::Fixed(_) => {
                    assert(chunk.len() <= usize::MAX);
                    self.pending_wire = Some(chunk);
                },
                UploadFraming::Chunked => {
                    let mut wire: Vec<u8> = Vec::new();
                    append_hex(&mut wire, chunk.len());
                    wire.push(0x0d);
                    wire.push(0x0a);
                    let overhead = wire.len();
                    let total = match overhead.checked_add(chunk.len()) {
                        Some(total) => total.checked_add(2),
                        None => None,
                    };
                    if total.is_none() {
                        return Err(
                            Error::new(
                                ErrorKind::Internal,
                                "native chunked upload framing length overflowed",
                            ),
                        );
                    }
                    wire.extend_from_slice(chunk.as_slice());
                    wire.push(0x0d);
                    wire.push(0x0a);
                    assert(wire@ =~= chunk_frame(chunk@));
                    self.pending_wire = Some(wire);
                },
            },
            UploadPoll::Pending => {},
            UploadPoll::Finished => {
                self.producer_finished = true;
                if let UploadFraming::Chunked = self.framing {
                    let mut wire: Vec<u8> = Vec::new();
                    wire.push(0x30);
                    wire.push(0x0d);
                    wire.push(0x0a);
                    wire.push(0x0d);
                    wire.push(0x0a);
                    assert(wire@ =~= last_chunk());
                    self.pending_wire = Some(wire);
                }
            },
            UploadPoll::Failed(error) => {
                return Err(error);
            },
        }
        Ok(())
    }

    /// Gives out what goes to the wire next, if it fits into `capacity`.
    pub fn next_wire(&mut self, capacity: Option<usize>) -> (result: Result<UploadWire, Error>)
        requires
            old(self).wf(),
        ensures
            final(self).wf(),
            match result {
                Ok(wire) => sent_next(old(self)@, capacity) == Ok::<
                    (NativeUploadView, UploadWireView),
                    ErrorView,
                >((final(self)@, wire@)),
                Err(error) => sent_next(old(self)@, capacity) == Err::<
                    (NativeUploadView, UploadWireView),
                    ErrorView,
                >(error@) && final(self)@ == popped(old(self)@),
            },
    {
        if self.pending_wire.is_none() && !self.producer_finished {
            self.prepare_wire()?;
        }
        if let Some(wire) = self.pending_wire.take() {
            if let Some(capacity) = capacity {
                if wire.len() > capacity {
                    self.pending_wire = Some(wire);
                    return Ok(UploadWire::Pending);
                }
            }
            return Ok(UploadWire::Bytes(wire));
        }
        if self.producer_finished {
            Ok(UploadWire::Complete)
        } else {
            Ok(UploadWire::Pending)
        }
    }

    /// Reports whether everything has been given out.
    pub fn is_complete(&self) -> (result: bool)
        ensures
            result == (self@.producer_finished && self@.pending_wire is None),
    {
        self.producer_finished && self.pending_wire.is_none()
    }

    /// Tells the producer that no more is wanted.
    pub fn close(&mut self)
        requires
            old(self).wf(),
        ensures
            final(self).wf(),
            final(self)@ == (NativeUploadView {
                body: UploadView { closed: true, ..old(self)@.body },
                ..old(self)@
            }),
    {
        self.body.close();
    }
}

/// The bytes of consecutive chunks on the wire.
pub open spec fn framed_chunks(framing: UploadFraming, chunks: Seq<Seq<u8>>) -> Seq<u8>
    decreases chunks.len(),
{
    if chunks.len() == 0 {
        Seq::empty()
    } else {
        framed(framing, chunks[0]) + framed_chunks(framing, chunks.skip(1))
    }
}

/// What is still to be sent of an upload, as far as the producer has got.
pub open spec fn unsent(upload: NativeUploadView) -> Seq<u8> {
    let pending = match upload.pending_wire {
        Some(wire) => wire,
        None => Seq::empty(),
    };
    let queued = if upload.producer_finished {
        Seq::empty()
    } else {
        framed_chunks(upload.framing, upload.body.chunks) + if upload.body.end is Finished {
            terminator(upload.framing)
        } else {
            Seq::empty()
        }
    };
    pending + queued
}

/// Nothing is lost, doubled or reordered on the way to the wire: what is given out is the front of
/// what was unsent, waiting changes nothing, and an upload is complete only when nothing is unsent.
pub proof fn lemma_upload_sends_everything_once(upload: NativeUploadView, capacity: Option<usize>)
    ensures
        sent_next(upload, capacity) matches Ok((next, UploadWireView::Bytes(wire))) ==> unsent(
            upload,
        ) == wire + unsent(next),
        sent_next(upload, capacity) matches Ok((next, UploadWireView::Pending)) ==> unsent(upload)
            == unsent(next),
        sent_next(upload, capacity) matches Ok((next, UploadWireView::Complete)) ==> unsent(upload)
            == Seq::<u8>::empty() && next.producer_finished,
{
    if let Ok(ready) = readied(upload) {
        assert(unsent(ready) =~= unsent(upload));
        if ready.pending_wire is Some {
            let next = NativeUploadView { pending_wire: None, ..ready };
            assert(ready.pending_wire->0 + unsent(next) =~= unsent(ready));
        } else {
            assert(ready.producer_finished ==> unsent(ready) =~= Seq::<u8>::empty());
        }
    }
}

/// A chunk with the size line that it is sent with.
pub open spec fn sized_chunk(chunk: Seq<u8>) -> WireChunk {
    WireChunk { line: hex_text(chunk.len()) + crlf(), data: chunk }
}

proof fn lemma_sized_chunk(chunk: Seq<u8>)
    requires
        0 < chunk.len() <= usize::MAX,
    ensures
        is_wire_chunk(sized_chunk(chunk)),
{
    let digits = hex_text(chunk.len());
    lemma_hex_text(chunk.len());
    lemma_chunk_line_of_digits(digits);
    lemma_no_inner_line_end(digits);
}

proof fn lemma_no_inner_line_end(digits: Seq<u8>)
    requires
        is_hex(digits),
    ensures
        !has_crlf((digits + crlf()).drop_last()),
{
    let line = (digits + crlf()).drop_last();
    assert forall|i: int| 0 <= i < line.len() - 1 implies #[trigger] line[i] != 0x0d by {
        assert(line[i] == digits[i]);
    }
}

proof fn lemma_sized_chunks(chunks: Seq<Seq<u8>>)
    requires
        forall|i: int|
            0 <= i < chunks.len() ==> 0 < (#[trigger] chunks[i]).len() <= usize::MAX,
    ensures
        ({
            let sized = chunks.map_values(|chunk: Seq<u8>| sized_chunk(chunk));
            &&& forall|i: int| 0 <= i < sized.len() ==> is_wire_chunk(#[trigger] sized[i])
            &&& chunk_bytes(sized) == framed_chunks(UploadFraming::Chunked, chunks)
            &&& chunk_payload(sized) == joined(chunks)
        }),
    decreases chunks.len(),
{
    let sized = chunks.map_values(|chunk: Seq<u8>| sized_chunk(chunk));
    assert forall|i: int| 0 <= i < sized.len() implies is_wire_chunk(#[trigger] sized[i]) by {
        lemma_sized_chunk(chunks[i]);
    }
    if chunks.len() > 0 {
        let rest = chunks.skip(1);
        assert forall|i: int| 0 <= i < rest.len() implies 0 < (#[trigger] rest[i]).len()
            <= usize::MAX by {
            assert(rest[i] == chunks[i + 1]);
        }
        lemma_sized_chunks(rest);
        assert(sized.skip(1) =~= rest.map_values(|chunk: Seq<u8>| sized_chunk(chunk)));
        assert(chunk_bytes(sized) =~= framed_chunks(UploadFraming::Chunked, chunks));
    }
}

/// What a chunked upload sends decodes to what the producer queued: a decoder that awaits a chunk
/// and has the room gives back the concatenation of the chunks and stops right behind the end.
pub proof fn lemma_chunked_upload_round_trips(
    decoder: DecoderView,
    chunks: Seq<Seq<u8>>,
    rest: Seq<u8>,
)
    requires
        awaits_chunk(decoder),
        forall|i: int|
            0 <= i < chunks.len() ==> 0 < (#[trigger] chunks[i]).len() <= usize::MAX,
        decoder.body.len() + joined(chunks).len() <= decoder.frame.limits.body_bytes,
        decoder.frame.framing_bytes + framed_chunks(UploadFraming::Chunked, chunks).len() - joined(
            chunks,
        ).len() + last_chunk().len() <= decoder.frame.limits.header_bytes,
    ensures
        run(
            decoder,
            framed_chunks(UploadFraming::Chunked, chunks) + terminator(UploadFraming::Chunked)
                + rest,
        ).1 == (RunEnd::Done {
            response: ResponseView {
                status: decoder.status->0,
                headers: decoder.headers,
                body: decoder.body + joined(chunks),
            },
            consumed: framed_chunks(UploadFraming::Chunked, chunks).len() + last_chunk().len(),
        }),
{
    let sized = chunks.map_values(|chunk: Seq<u8>| sized_chunk(chunk));
    let zero = seq![0x30u8];
    let end_line = zero + crlf();
    let body = chunk_bytes(sized) + end_line + crlf();
    lemma_sized_chunks(chunks);
    assert(hex_value(zero) == 0) by {
        assert(zero.drop_last() =~= Seq::<u8>::empty());
        reveal_with_fuel(hex_value, 2);
    }
    lemma_chunk_line_of_digits(zero);
    lemma_no_inner_line_end(zero);
    lemma_empty_trailers(decoder.frame.limits);
    lemma_run_chunked(decoder, sized, end_line, crlf());
    assert(body =~= framed_chunks(UploadFraming::Chunked, chunks) + last_chunk());
    lemma_run_concat(decoder, body, rest);
}

/// How much output may be queued for a request: its head, and with an upload also one full queue of
/// body bytes and the framing of one chunk.
pub open spec fn outbound_bound(serialized: nat, upload: Option<usize>) -> nat {
    let wanted = match upload {
        None => serialized,
        Some(capacity) => serialized + capacity as nat + 32,
    };
    if wanted > usize::MAX {
        usize::MAX as nat
    } else {
        wanted
    }
}

/// How much output may be queued for a request without TLS.
pub fn cleartext_outbound_limit(serialized: &SerializedRequest, upload: Option<&UploadBody>) -> (
    result: usize)
    ensures
        result == outbound_bound(
            serialized@.bytes.len(),
            match upload {
                Some(body) => Some(body@.capacity),
                None => None,
            },
        ),
{
    match upload {
        None => serialized.bytes.len(),
        Some(body) => serialized.bytes.len().saturating_add(body.queue_capacity()).saturating_add(
            32,
        ),
    }
}

} // verus!
