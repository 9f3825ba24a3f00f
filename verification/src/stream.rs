//! The bounded queue between a streaming response decoder and the reader of its body.

use crate::types::{Error, ErrorView, ResponseHead, ResponseHeadView};
use vstd::prelude::*;

verus! {

/// How delivery ended.
#[derive(Debug)]
pub enum SinkEnd {
    Complete,
    Failed(Error),
    Cancelled,
}

/// What a [`SinkEnd`] says.
#[verifier::ext_equal]
pub enum SinkEndView {
    Complete,
    Failed(ErrorView),
    Cancelled,
}

impl View for SinkEnd {
    type V = SinkEndView;

    open spec fn view(&self) -> SinkEndView {
        match self {
            SinkEnd::Complete => SinkEndView::Complete,
            SinkEnd::Failed(error) => SinkEndView::Failed(error@),
            SinkEnd::Cancelled => SinkEndView::Cancelled,
        }
    }
}

/// Delivery of one response: its head, then its body through a queue of bounded size. The decoder
/// is the producer; the reader takes bytes out and may close its side at any time.
#[derive(Debug)]
pub struct ResponseSink {
    pub capacity: usize,
    pub body_limit: usize,
    pub head: Option<ResponseHead>,
    pub queue: Vec<u8>,
    pub accepted: usize,
    pub end: Option<SinkEnd>,
    pub reader_closed: bool,
}

/// What a [`ResponseSink`] holds.
#[verifier::ext_equal]
pub struct SinkView {
    pub capacity: usize,
    pub body_limit: usize,
    pub head: Option<ResponseHeadView>,
    pub queue: Seq<u8>,
    pub accepted: nat,
    pub end: Option<SinkEndView>,
    pub reader_closed: bool,
}

/// What an optional head holds.
pub open spec fn head_view(head: Option<ResponseHead>) -> Option<ResponseHeadView> {
    match head {
        Some(head) => Some(head@),
        None => None,
    }
}

/// What an optional end says.
pub open spec fn end_view(end: Option<SinkEnd>) -> Option<SinkEndView> {
    match end {
        Some(end) => Some(end@),
        None => None,
    }
}

impl View for ResponseSink {
    type V = SinkView;

    open spec fn view(&self) -> SinkView {
        SinkView {
            capacity: self.capacity,
            body_limit: self.body_limit,
            head: head_view(self.head),
            queue: self.queue@,
            accepted: self.accepted as nat,
            end: end_view(self.end),
            reader_closed: self.reader_closed,
        }
    }
}

/// The queue keeps to its capacity and the body to its limit.
pub open spec fn sink_ok(sink: SinkView) -> bool {
    &&& sink.queue.len() <= sink.capacity
    &&& sink.queue.len() <= sink.accepted <= sink.body_limit
}

/// How many bytes the queue can take.
pub open spec fn sink_room(sink: SinkView) -> nat {
    (sink.capacity - sink.queue.len()) as nat
}

/// Whether the producer can still deliver.
pub open spec fn sink_open(sink: SinkView) -> bool {
    sink.end is None && !sink.reader_closed
}

/// Why bytes were not taken. The bytes come back.
#[derive(Debug)]
pub enum ResponsePushError {
    WouldBlock(Vec<u8>),
    Closed(Vec<u8>),
    Protocol(Vec<u8>),
    Limit(Vec<u8>),
}

/// The refusal without the bytes.
#[verifier::ext_equal]
pub enum Refusal {
    WouldBlock,
    Closed,
    Protocol,
    Limit,
}

/// The refusal without the bytes.
pub open spec fn refusal(error: ResponsePushError) -> Refusal {
    match error {
        ResponsePushError::WouldBlock(_) => Refusal::WouldBlock,
        ResponsePushError::Closed(_) => Refusal::Closed,
        ResponsePushError::Protocol(_) => Refusal::Protocol,
        ResponsePushError::Limit(_) => Refusal::Limit,
    }
}

/// The bytes that come back with a refusal.
pub open spec fn refused_bytes(error: ResponsePushError) -> Seq<u8> {
    match error {
        ResponsePushError::WouldBlock(bytes) => bytes@,
        ResponsePushError::Closed(bytes) => bytes@,
        ResponsePushError::Protocol(bytes) => bytes@,
        ResponsePushError::Limit(bytes) => bytes@,
    }
}

/// What pushing bytes does.
pub open spec fn sink_push(sink: SinkView, bytes: Seq<u8>) -> Result<SinkView, Refusal> {
    if !sink_open(sink) {
        Err(Refusal::Closed)
    } else if sink.head is None {
        Err(Refusal::Protocol)
    } else if sink.accepted + bytes.len() > sink.body_limit {
        Err(Refusal::Limit)
    } else if bytes.len() > sink_room(sink) {
        Err(Refusal::WouldBlock)
    } else {
        Ok(
            SinkView {
                queue: sink.queue + bytes,
                accepted: sink.accepted + bytes.len(),
                ..sink
            },
        )
    }
}

/// The first end of delivery stands.
pub open spec fn sink_finish(sink: SinkView, end: SinkEndView) -> SinkView {
    if sink.end is None {
        SinkView { end: Some(end), ..sink }
    } else {
        sink
    }
}

/// What the reader gets.
#[derive(Debug)]
pub enum StreamRead {
    Data(Vec<u8>),
    Pending,
    Eof,
    Failed(Error),
    Cancelled,
}

/// What a [`StreamRead`] says.
pub enum ReadView {
    Data(Seq<u8>),
    Pending,
    Eof,
    Failed(ErrorView),
    Cancelled,
}

impl View for StreamRead {
    type V = ReadView;

    open spec fn view(&self) -> ReadView {
        match self {
            StreamRead::Data(bytes) => ReadView::Data(bytes@),
            StreamRead::Pending => ReadView::Pending,
            StreamRead::Eof => ReadView::Eof,
            StreamRead::Failed(error) => ReadView::Failed(error@),
            StreamRead::Cancelled => ReadView::Cancelled,
        }
    }
}

/// What a reader that wants at most so many bytes gets. How delivery ended shows once the queue is
/// empty.
pub open spec fn sink_read(sink: SinkView, most: nat) -> (SinkView, ReadView) {
    if sink.queue.len() > 0 {
        let count = if most < sink.queue.len() {
            most as int
        } else {
            sink.queue.len() as int
        };
        (
            SinkView { queue: sink.queue.skip(count), ..sink },
            ReadView::Data(sink.queue.take(count)),
        )
    } else {
        (
            sink,
            match sink.end {
                None => ReadView::Pending,
                Some(SinkEndView::Complete) => ReadView::Eof,
                Some(SinkEndView::Cancelled) => ReadView::Cancelled,
                Some(SinkEndView::Failed(error)) => ReadView::Failed(error),
            },
        )
    }
}

impl ResponseSink {
    pub open spec fn wf(&self) -> bool {
        sink_ok(self@)
    }

    /// An empty queue of `capacity` bytes for a body of at most `body_limit` bytes.
    pub fn new(capacity: usize, body_limit: usize) -> (result: Self)
        ensures
            result.wf(),
            result@ == (SinkView {
                capacity,
                body_limit,
                head: None,
                queue: Seq::empty(),
                accepted: 0,
                end: None,
                reader_closed: false,
            }),
    {
        ResponseSink {
            capacity,
            body_limit,
            head: None,
            queue: Vec::new(),
            accepted: 0,
            end: None,
            reader_closed: false,
        }
    }

    /// How many bytes the queue can take.
    pub fn available_capacity(&self) -> (result: usize)
        requires
            self.wf(),
        ensures
            result == sink_room(self@),
    {
        self.capacity - self.queue.len()
    }

    /// Publishes the head, and with it the end of a response without a body.
    pub fn publish_head(&mut self, head: ResponseHead, complete: bool) -> (result: bool)
        requires
            old(self).wf(),
        ensures
            final(self).wf(),
            result == sink_open(old(self)@),
            result ==> final(self)@ == (SinkView {
                head: Some(head@),
                end: if complete {
                    Some(SinkEndView::Complete)
                } else {
                    None
                },
                ..old(self)@
            }),
            !result ==> final(self)@ == old(self)@,
    {
        if self.end.is_some() || self.reader_closed {
            return false;
        }
        self.head = Some(head);
        if complete {
            self.end = Some(SinkEnd::Complete);
        }
        true
    }

    /// Puts bytes into the queue, all or none.
    pub fn try_push(&mut self, bytes: Vec<u8>) -> (result: Result<(), ResponsePushError>)
        requires
            old(self).wf(),
        ensures
            final(self).wf(),
            match result {
                Ok(_) => sink_push(old(self)@, bytes@) == Ok::<SinkView, Refusal>(final(self)@),
                Err(error) => sink_push(old(self)@, bytes@) == Err::<SinkView, Refusal>(
                    refusal(error),
                ) && refused_bytes(error) == bytes@ && final(self)@ == old(self)@,
            },
    {
        if self.end.is_some() || self.reader_closed {
            return Err(ResponsePushError::Closed(bytes));
        }
        if self.head.is_none() {
            return Err(ResponsePushError::Protocol(bytes));
        }
        if bytes.len() > self.body_limit - self.accepted {
            return Err(ResponsePushError::Limit(bytes));
        }
        if bytes.len() > self.capacity - self.queue.len() {
            return Err(ResponsePushError::WouldBlock(bytes));
        }
        self.accepted = self.accepted + bytes.len();
        let mut more = bytes;
        self.queue.append(&mut more);
        Ok(())
    }

    /// Ends delivery: the body is complete.
    pub fn complete(&mut self)
        requires
            old(self).wf(),
        ensures
            final(self).wf(),
            final(self)@ == sink_finish(old(self)@, SinkEndView::Complete),
    {
        if self.end.is_none() {
            self.end = Some(SinkEnd::Complete);
        }
    }

    /// Ends delivery with an error.
    pub fn fail(&mut self, error: Error)
        requires
            old(self).wf(),
        ensures
            final(self).wf(),
            final(self)@ == sink_finish(old(self)@, SinkEndView::Failed(error@)),
    {
        if self.end.is_none() {
            self.end = Some(SinkEnd::Failed(error));
        }
    }

    /// Ends delivery because nobody wants the response any more.
    pub fn cancel(&mut self)
        requires
            old(self).wf(),
        ensures
            final(self).wf(),
            final(self)@ == sink_finish(old(self)@, SinkEndView::Cancelled),
    {
        if self.end.is_none() {
            self.end = Some(SinkEnd::Cancelled);
        }
    }

    /// Closes the reader's side; nothing more is delivered.
    pub fn close_reader(&mut self)
        requires
            old(self).wf(),
        ensures
            final(self).wf(),
            final(self)@ == (SinkView { reader_closed: true, ..old(self)@ }),
    {
        self.reader_closed = true;
    }

    /// Takes up to `most` bytes out of the queue. How delivery ended shows once the queue is empty.
    pub fn try_read(&mut self, most: usize) -> (result: StreamRead)
        requires
            old(self).wf(),
        ensures
            final(self).wf(),
            sink_read(old(self)@, most as nat) == (final(self)@, result@),
    {
        let length = self.queue.len();
        if length > 0 {
            let count = if most < length {
                most
            } else {
                length
            };
            let rest = self.queue.split_off(count);
            let mut taken = rest;
            std::mem::swap(&mut taken, &mut self.queue);
            assert(taken@ =~= old(self)@.queue.take(count as int));
            assert(self.queue@ =~= old(self)@.queue.skip(count as int));
            return StreamRead::Data(taken);
        }
        match &self.end {
            None => StreamRead::Pending,
            Some(SinkEnd::Complete) => StreamRead::Eof,
            Some(SinkEnd::Cancelled) => StreamRead::Cancelled,
            Some(SinkEnd::Failed(error)) => StreamRead::Failed(error.clone()),
        }
    }
}

} // verus!
