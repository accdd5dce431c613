use vstd::prelude::*;

use crate::error::Error;
use crate::progress::{Progress, ProgressView};
use crate::progress_map::{find, update_entry, ProgressMap, Update};

verus! {

/// How a transfer that did not fail came to its end.
#[derive(Debug, Clone, Copy, PartialEq, Eq, Structural)]
pub enum Status {
    /// The stream reached its end without a cancellation.
    Success,
    /// A cancellation was observed before a chunk was written.
    Cancel,
}

/// A status code of the success class.
pub open spec fn is_success(status: u16) -> bool {
    200 <= status < 300
}

/// The record once the response head has been taken in: a declared length
/// becomes the total, an absent one leaves it as it was.
pub open spec fn headed(p: ProgressView, declared: Option<u64>) -> ProgressView {
    match declared {
        Some(n) => p.with_total(n),
        None => p,
    }
}

/// The decision taken before a chunk is written: stop when a cancellation
/// was requested, else write it.
pub open spec fn gate(p: ProgressView) -> Option<Status> {
    if p.canceled {
        Some(Status::Cancel)
    } else {
        None
    }
}

/// The number of bytes in a sequence of chunks.
pub open spec fn total_len(chunks: Seq<Seq<u8>>) -> nat
    decreases chunks.len(),
{
    if chunks.len() == 0 {
        0
    } else {
        total_len(chunks.drop_last()) + chunks.last().len()
    }
}

/// The record after every chunk of `chunks` was written and committed.
pub open spec fn copied(p: ProgressView, chunks: Seq<Seq<u8>>) -> ProgressView
    decreases chunks.len(),
{
    if chunks.len() == 0 {
        p
    } else {
        copied(p, chunks.drop_last()).advanced(chunks.last().len() as u64)
    }
}

/// Copying changes nothing but the transferred count.
proof fn lemma_copied_keeps(p: ProgressView, chunks: Seq<Seq<u8>>)
    ensures
        copied(p, chunks).url == p.url,
        copied(p, chunks).name == p.name,
        copied(p, chunks).ext == p.ext,
        copied(p, chunks).total == p.total,
        copied(p, chunks).canceled == p.canceled,
    decreases chunks.len(),
{
    if chunks.len() > 0 {
        lemma_copied_keeps(p, chunks.drop_last());
    }
}

/// Without saturation, copying adds up the chunk lengths.
proof fn lemma_copied_count(p: ProgressView, chunks: Seq<Seq<u8>>)
    requires
        p.transferred + total_len(chunks) <= u64::MAX,
    ensures
        copied(p, chunks).transferred == p.transferred + total_len(chunks),
    decreases chunks.len(),
{
    if chunks.len() > 0 {
        lemma_copied_count(p, chunks.drop_last());
    }
}

/// A prefix holds no more bytes than the whole.
proof fn lemma_prefix_len(chunks: Seq<Seq<u8>>, k: int)
    requires
        0 <= k <= chunks.len(),
    ensures
        total_len(chunks.take(k)) <= total_len(chunks),
    decreases chunks.len(),
{
    if k == chunks.len() {
        assert(chunks.take(k) =~= chunks);
    } else {
        assert(chunks.take(k) =~= chunks.drop_last().take(k));
        lemma_prefix_len(chunks.drop_last(), k);
    }
}

/// A transfer that is never canceled writes every chunk; it ends with the
/// transferred count equal to the bytes of all chunks, and with the declared
/// length, if any, as its total, whether or not the two agree.
pub proof fn lemma_uncanceled_transfer(p: ProgressView, declared: Option<u64>, chunks: Seq<Seq<u8>>)
    requires
        p.transferred == 0,
        !p.canceled,
        total_len(chunks) <= u64::MAX,
    ensures
        forall|k: int|
            0 <= k < chunks.len() ==> gate(#[trigger] copied(headed(p, declared), chunks.take(k)))
                is None,
        copied(headed(p, declared), chunks).transferred == total_len(chunks),
        declared is Some ==> copied(headed(p, declared), chunks).total == declared->0,
        declared is None ==> copied(headed(p, declared), chunks).total == p.total,
{
    let q = headed(p, declared);
    assert forall|k: int| 0 <= k < chunks.len() implies gate(
        #[trigger] copied(q, chunks.take(k)),
    ) is None by {
        lemma_copied_keeps(q, chunks.take(k));
    }
    lemma_copied_keeps(q, chunks);
    lemma_copied_count(q, chunks);
}

/// A cancellation requested after the first `k` chunks stops the transfer
/// at the next chunk, with the transferred count equal to the bytes of those
/// `k` chunks.
pub proof fn lemma_canceled_transfer(
    p: ProgressView,
    declared: Option<u64>,
    chunks: Seq<Seq<u8>>,
    k: int,
)
    requires
        p.transferred == 0,
        !p.canceled,
        0 <= k <= chunks.len(),
        total_len(chunks) <= u64::MAX,
    ensures
        forall|j: int|
            0 <= j < k ==> gate(#[trigger] copied(headed(p, declared), chunks.take(j))) is None,
        gate(copied(headed(p, declared), chunks.take(k)).canceled()) == Some(Status::Cancel),
        copied(headed(p, declared), chunks.take(k)).canceled().transferred == total_len(
            chunks.take(k),
        ),
{
    let q = headed(p, declared);
    assert forall|j: int| 0 <= j < k implies gate(#[trigger] copied(q, chunks.take(j))) is None by {
        lemma_copied_keeps(q, chunks.take(j));
    }
    lemma_prefix_len(chunks, k);
    lemma_copied_count(q, chunks.take(k));
}

/// A cancellation requested before any chunk is copied stops the transfer
/// at the first chunk, with nothing transferred.
pub proof fn lemma_cancel_before_copy(p: ProgressView, declared: Option<u64>)
    requires
        p.transferred == 0,
        !p.canceled,
    ensures
        gate(headed(p, declared).canceled()) == Some(Status::Cancel),
        headed(p, declared).canceled().transferred == 0,
{
}

/// The transfer pipeline: the decisions of one streaming copy from a source
/// to the staging area, taken on the transfer's progress record. The caller
/// performs the reads and writes and reports each step here.
pub struct Downloader<C> {
    client: C,
}

impl<C> Downloader<C> {
    pub closed spec fn spec_client(&self) -> C {
        self.client
    }

    pub fn new(client: C) -> (r: Self)
        ensures
            r.spec_client() == client,
    {
        Downloader { client }
    }

    /// The data source this pipeline fetches from.
    pub fn client(&self) -> (r: &C)
        ensures
            *r == self.spec_client(),
    {
        &self.client
    }

    /// Takes in the response head. A status outside the success class
    /// fails the transfer and leaves the record untouched; otherwise a
    /// declared length is recorded as the total before any byte is copied.
    pub fn begin(&self, pg: &mut Progress, status: u16, declared: Option<u64>) -> (r: Result<
        (),
        Error,
    >)
        ensures
            is_success(status) ==> r is Ok && final(pg)@ == headed(old(pg)@, declared),
            !is_success(status) ==> r == Err::<(), Error>(Error::SourceStatus(status))
                && final(pg)@ == old(pg)@,
    {
        if status < 200 || status >= 300 {
            return Err(Error::SourceStatus(status));
        }
        match declared {
            Some(n) => pg.set_total(n),
            None => {},
        }
        Ok(())
    }

    /// Decides on the next chunk before it is written: `Some(Cancel)` ends
    /// the transfer, `None` lets the chunk be written.
    pub fn check_chunk(&self, pg: &Progress) -> (r: Option<Status>)
        ensures
            r == gate(pg@),
    {
        if pg.is_canceled() {
            Some(Status::Cancel)
        } else {
            None
        }
    }

    /// Accounts for a chunk once it has been written to the staging area.
    pub fn commit(&self, pg: &mut Progress, chunk: &[u8])
        ensures
            final(pg)@ == old(pg)@.advanced(chunk@.len() as u64),
    {
        pg.progress(chunk.len() as u64);
    }

    /// `begin` on the record registered under `id`. An identifier that is
    /// no longer registered has nothing to record; its transfer stops at the
    /// next chunk.
    pub fn begin_entry(
        &self,
        map: &mut ProgressMap,
        id: u128,
        status: u16,
        declared: Option<u64>,
    ) -> (r: Result<(), Error>)
        requires
            old(map).wf(),
        ensures
            final(map).wf(),
            final(map).issued() == old(map).issued(),
            is_success(status) && declared is Some ==> final(map)@ == update_entry(
                old(map)@,
                id,
                Update::SetTotal(declared->0),
            ),
            is_success(status) ==> r is Ok,
            !is_success(status) ==> r == Err::<(), Error>(Error::SourceStatus(status))
                && final(map)@ == old(map)@,
            is_success(status) ==> match find(old(map)@, id) {
                Some(i) => final(map)@ == old(map)@.update(
                    i,
                    (id, headed(old(map)@[i].1, declared)),
                ),
                None => final(map)@ == old(map)@,
            },
    {
        if status < 200 || status >= 300 {
            return Err(Error::SourceStatus(status));
        }
        match map.get_mut(id) {
            Some(pg) => self.begin(pg, status, declared),
            None => Ok(()),
        }
    }

    /// `check_chunk` on the record registered under `id`; a transfer whose
    /// identifier is no longer registered stops as canceled.
    pub fn check_entry(&self, map: &ProgressMap, id: u128) -> (r: Option<Status>)
        requires
            map.wf(),
        ensures
            match find(map@, id) {
                Some(i) => r == gate(map@[i].1),
                None => r == Some(Status::Cancel),
            },
    {
        match map.get(id) {
            Some(pg) => self.check_chunk(pg),
            None => Some(Status::Cancel),
        }
    }

    /// `commit` on the record registered under `id`; every other entry
    /// stays as it is.
    pub fn commit_entry(&self, map: &mut ProgressMap, id: u128, chunk: &[u8])
        requires
            old(map).wf(),
        ensures
            final(map).wf(),
            final(map).issued() == old(map).issued(),
            final(map)@ == update_entry(old(map)@, id, Update::Progress(chunk@.len() as u64)),
            match find(old(map)@, id) {
                Some(i) => final(map)@ == old(map)@.update(
                    i,
                    (id, old(map)@[i].1.advanced(chunk@.len() as u64)),
                ),
                None => final(map)@ == old(map)@,
            },
    {
        match map.get_mut(id) {
            Some(pg) => self.commit(pg, chunk),
            None => {},
        }
    }
}

} // verus!
