//! Request bodies that are handed over piece by piece.

use crate::backend::{
    lemma_resolve_added, lemma_resolve_taken, lemma_transfer_added, lemma_transfer_taken,
    BackendView, NativeHttpBackend,
};
use crate::control::{first_number, lookup_ids, transfer_ids, waiting_ids};
use crate::dispatch::lemma_waiting_taken;
use crate::exchange::ExchangeView;
use crate::pending::{
    pending_response_ok, PendingResolve, PendingResponse, PendingResponseView, PendingView,
};
use crate::table::{lemma_position_at, lemma_without_id};
use crate::transfer::{HttpTransfer, TransferView};
use crate::types::{Error, ErrorView};
use crate::upload::{
    body_finished, takes, with_chunk, NativeUploadView, UploadBody, UploadEndView, UploadView,
};
use vstd::prelude::*;

verus! {

/// What a producer hands over.
#[derive(Debug)]
pub enum UploadFeed {
    Chunk(Vec<u8>),
    Finished,
    Failed(Error),
}

/// What an [`UploadFeed`] says.
pub enum FeedView {
    Chunk(Seq<u8>),
    Finished,
    Failed(ErrorView),
}

impl View for UploadFeed {
    type V = FeedView;

    open spec fn view(&self) -> FeedView {
        match self {
            UploadFeed::Chunk(bytes) => FeedView::Chunk(bytes@),
            UploadFeed::Finished => FeedView::Finished,
            UploadFeed::Failed(error) => FeedView::Failed(error@),
        }
    }
}

/// What a body becomes, and whether it took what was handed over. The first end stands.
pub open spec fn body_fed(body: UploadView, feed: FeedView) -> (UploadView, bool) {
    match feed {
        FeedView::Chunk(bytes) => if takes(body, bytes) {
            (with_chunk(body, bytes), true)
        } else {
            (body, false)
        },
        FeedView::Finished => (
            body_finished(body),
            body.end is Open && body_finished(body).end is Finished,
        ),
        FeedView::Failed(error) => (
            UploadView {
                end: if body.end is Open {
                    UploadEndView::Failed(error)
                } else {
                    body.end
                },
                ..body
            },
            body.end is Open,
        ),
    }
}

/// What an exchange becomes.
pub open spec fn transfer_fed(transfer: TransferView, feed: FeedView) -> (TransferView, bool) {
    match transfer.exchange.upload {
        None => (transfer, false),
        Some(upload) => {
            let (body, taken) = body_fed(upload.body, feed);
            (
                TransferView {
                    exchange: ExchangeView {
                        upload: Some(NativeUploadView { body, ..upload }),
                        ..transfer.exchange
                    },
                    ..transfer
                },
                taken,
            )
        },
    }
}

/// What a request that waits becomes.
pub open spec fn pending_fed(pending: PendingView, feed: FeedView) -> (PendingView, bool) {
    match pending.response {
        PendingResponseView::Streaming { response, upload: Some(body) } => {
            let (body, taken) = body_fed(body, feed);
            (
                PendingView {
                    response: PendingResponseView::Streaming { response, upload: Some(body) },
                    ..pending
                },
                taken,
            )
        },
        _ => (pending, false),
    }
}

/// What the engine becomes when the producer of a request's body hands something over, and whether
/// the body took it. A body whose response is there takes nothing more.
pub open spec fn upload_fed(backend: BackendView, id: u64, feed: FeedView) -> (BackendView, bool) {
    let carried = first_number(transfer_ids(backend.transfers), id);
    let looked = first_number(lookup_ids(backend.resolves), id);
    let waits = first_number(waiting_ids(backend.waiting), id);
    if carried < backend.transfers.len() {
        let (slot, transfer) = backend.transfers[carried];
        let (fed, taken) = transfer_fed(transfer, feed);
        (
            BackendView {
                transfers: backend.transfers.remove(carried).push((slot, fed)),
                ..backend
            },
            taken,
        )
    } else if looked < backend.resolves.len() {
        let (key, pending) = backend.resolves[looked];
        let (fed, taken) = pending_fed(pending, feed);
        (
            BackendView { resolves: backend.resolves.remove(looked).push((key, fed)), ..backend },
            taken,
        )
    } else if waits < backend.waiting.len() {
        let (fed, taken) = pending_fed(backend.waiting[waits], feed);
        (
            BackendView {
                waiting: backend.waiting.remove(waits).insert(waits, fed),
                ..backend
            },
            taken,
        )
    } else {
        (backend, false)
    }
}

impl UploadBody {
    /// Takes what a producer hands over.
    pub fn feed(&mut self, feed: UploadFeed) -> (result: bool)
        requires
            old(self).wf(),
        ensures
            final(self).wf(),
            body_fed(old(self)@, feed@) == (final(self)@, result),
    {
        let open = match &self.end {
            crate::upload::UploadEnd::Open => true,
            _ => false,
        };
        match feed {
            UploadFeed::Chunk(bytes) => self.push(bytes).is_ok(),
            UploadFeed::Finished => self.finish(),
            UploadFeed::Failed(error) => {
                self.fail(error);
                open
            },
        }
    }
}

impl HttpTransfer {
    fn feed(&mut self, feed: UploadFeed) -> (result: bool)
        requires
            old(self).wf(),
        ensures
            final(self).wf(),
            transfer_fed(old(self)@, feed@) == (final(self)@, result),
            final(self)@.exchange.key == old(self)@.exchange.key,
    {
        match &mut self.exchange.upload {
            Some(upload) => upload.body.feed(feed),
            None => false,
        }
    }
}

impl PendingResolve {
    fn feed(&mut self, feed: UploadFeed) -> (result: bool)
        requires
            old(self).wf(),
        ensures
            final(self).wf(),
            pending_fed(old(self)@, feed@) == (final(self)@, result),
            final(self)@.key == old(self)@.key,
    {
        match &mut self.response {
            PendingResponse::Streaming { response: _, upload } => match upload {
                Some(body) => body.feed(feed),
                None => false,
            },
            PendingResponse::Buffered => false,
        }
    }
}

impl NativeHttpBackend {
    /// Takes what the producer of a request's body hands over, wherever the request is.
    pub fn feed_upload(&mut self, id: u64, feed: UploadFeed) -> (result: bool)
        requires
            old(self).wf(),
        ensures
            final(self).wf(),
            upload_fed(old(self)@, id, feed@) == (final(self)@, result),
    {
        let carried = self.find_transfer(id);
        if carried < self.transfers.len() {
            let slot = self.transfers.id_at(carried);
            proof {
                lemma_position_at(self@.transfers, carried as int);
                lemma_transfer_taken(self@, slot);
            }
            if let Some(transfer) = self.transfers.remove(slot) {
                let mut transfer = transfer;
                let taken = transfer.feed(feed);
                proof {
                    lemma_transfer_added(self@, slot, transfer@);
                }
                self.transfers.insert(slot, transfer);
                return taken;
            }
            return false;
        }
        let looked = self.find_lookup(id);
        if looked < self.resolves.len() {
            let key = self.resolves.id_at(looked);
            proof {
                lemma_position_at(self@.resolves, looked as int);
                lemma_resolve_taken(self@, key);
                lemma_without_id(self@.resolves, key, key);
            }
            if let Some(pending) = self.resolves.remove(key) {
                let mut pending = pending;
                let taken = pending.feed(feed);
                proof {
                    lemma_resolve_added(self@, key, pending@);
                }
                self.resolves.insert(key, pending);
                return taken;
            }
            return false;
        }
        let waits = self.find_waiting(id);
        if waits < self.waiting.len() {
            proof {
                lemma_waiting_taken(self@, waits as int);
            }
            let mut pending = self.waiting.remove(waits);
            let ghost rest = self@.waiting;
            let taken = pending.feed(feed);
            self.waiting.insert(waits, pending);
            proof {
                assert forall|i: int| 0 <= i < self@.waiting.len() implies pending_response_ok(
                    (#[trigger] self@.waiting[i]).response,
                ) by {
                    if i < waits {
                        assert(self@.waiting[i] == rest[i]);
                    } else if i > waits {
                        assert(self@.waiting[i] == rest[i - 1]);
                    }
                }
            }
            return taken;
        }
        false
    }
}

/// A body of announced length keeps its promise: every chunk that is taken counts toward the length,
/// none exceeds it, and the body ends well only once the length is reached.
pub proof fn lemma_announced_lengths_are_kept(body: UploadView, feed: FeedView)
    requires
        body.framing is Fixed,
    ensures
        ({
            let (next, taken) = body_fed(body, feed);
            match feed {
                FeedView::Chunk(bytes) => taken ==> next.remaining + bytes.len() == body.remaining,
                FeedView::Finished => taken ==> body.remaining == 0 && next.end is Finished,
                FeedView::Failed(_) => next.remaining == body.remaining,
            }
        }),
        body.end is Open && body.remaining > 0 ==> body_fed(body, FeedView::Finished).0.end
            is Failed,
{
}

} // verus!
