use vstd::prelude::*;

use crate::crypt::hash::spec_digest;
use crate::structs::directory::{header_encoding, zero_hash, DirectoryAnchor, DirectoryHeader};

verus! {

/// The number of headers fetched in one request.
pub const BATCH_LIMIT: u64 = 1000;

/// Why a batch of directory headers was refused.
#[derive(Clone, Copy, Debug, PartialEq, Eq, Structural)]
pub enum HeaderSyncError {
    /// The directory answered a different number of headers than asked for.
    IncompleteRange,
    /// The header at this height does not link to the one before.
    ChainMismatch(u64),
    /// The last stored header is not the one the anchor names.
    AnchorMismatch,
}

/// A header ready to be stored: its height, its encoding and its hash.
#[derive(Clone, Debug)]
pub struct StagedHeader {
    pub height: u64,
    pub data: Vec<u8>,
    pub hash: crate::crypt::hash::Hash,
}

/// The last height of the batch that starts at `next`: `BATCH_LIMIT` headers, or fewer to stop
/// at the anchor's height.
pub fn header_batch_end(next: u64, last: u64) -> (end: u64)
    requires
        next <= last,
    ensures
        end == if next + BATCH_LIMIT - 1 <= last {
            next + BATCH_LIMIT - 1
        } else {
            last as int
        },
{
    if last - next >= BATCH_LIMIT - 1 {
        next + (BATCH_LIMIT - 1)
    } else {
        last
    }
}

/// The hash each header of a batch must link to: `prev` for the first, and the hash of the one
/// before for the others.
pub open spec fn batch_links(prev: Seq<u8>, headers: Seq<DirectoryHeader>, i: int) -> Seq<u8> {
    if i == 0 {
        prev
    } else {
        spec_digest(header_encoding(headers[i - 1]))
    }
}

/// Checks a batch of headers fetched for the heights `next..=end`: there must be one per
/// height, and each must link to the one before (the first to `prev`). Answers the headers
/// staged for storage, each with its height, encoding and hash.
pub fn check_header_batch(
    prev: crate::crypt::hash::Hash,
    next: u64,
    end: u64,
    headers: &Vec<DirectoryHeader>,
) -> (r: Result<Vec<StagedHeader>, HeaderSyncError>)
    requires
        next <= end,
        end - next < u64::MAX,
    ensures
        headers@.len() != end - next + 1 ==> r == Err::<Vec<StagedHeader>, HeaderSyncError>(
            HeaderSyncError::IncompleteRange,
        ),
        headers@.len() == end - next + 1 ==> match r {
            Ok(staged) => {
                &&& forall|i: int|
                    0 <= i < headers@.len() ==> (#[trigger] headers@[i]).prev@ == batch_links(
                        prev@,
                        headers@,
                        i,
                    )
                &&& staged@.len() == headers@.len()
                &&& forall|i: int|
                    0 <= i < staged@.len() ==> (#[trigger] staged@[i]).height == next + i
                        && staged@[i].data@ == header_encoding(headers@[i]) && staged@[i].hash@
                        == spec_digest(header_encoding(headers@[i]))
            },
            Err(e) => exists|i: int|
                0 <= i < headers@.len() && e == HeaderSyncError::ChainMismatch((next + i) as u64)
                    && (#[trigger] headers@[i]).prev@ != batch_links(prev@, headers@, i)
                    && forall|j: int| 0 <= j < i ==> headers@[j].prev@ == batch_links(prev@, headers@, j),
        },
{
    let expected_len = end - next + 1;
    if headers.len() as u64 != expected_len {
        return Err(HeaderSyncError::IncompleteRange);
    }
    let mut staged: Vec<StagedHeader> = Vec::new();
    let mut expected_prev = prev;
    let mut i: usize = 0;
    while i < headers.len()
        invariant
            0 <= i <= headers@.len(),
            headers@.len() == end - next + 1,
            next <= end,
            end - next < u64::MAX,
            staged@.len() == i,
            expected_prev@ == batch_links(prev@, headers@, i as int),
            forall|j: int|
                0 <= j < i ==> (#[trigger] headers@[j]).prev@ == batch_links(prev@, headers@, j),
            forall|j: int|
                0 <= j < i ==> (#[trigger] staged@[j]).height == next + j && staged@[j].data@
                    == header_encoding(headers@[j]) && staged@[j].hash@ == spec_digest(
                    header_encoding(headers@[j]),
                ),
        decreases headers@.len() - i,
    {
        let header = &headers[i];
        if !(header.prev == expected_prev) {
            return Err(HeaderSyncError::ChainMismatch(next + i as u64));
        }
        let data = header.encode();
        let hash = crate::crypt::hash::Hash::digest(data.as_slice());
        staged.push(StagedHeader { height: next + i as u64, data, hash });
        expected_prev = hash;
        i = i + 1;
    }
    Ok(staged)
}

/// Checks that the last stored header is the one the anchor names.
pub fn check_anchor_reached(last_hash: crate::crypt::hash::Hash, anchor: &DirectoryAnchor) -> (r: Result<
    (),
    HeaderSyncError,
>)
    ensures
        r is Ok <==> last_hash@ == anchor.last_header_hash@,
        r matches Err(e) ==> e == HeaderSyncError::AnchorMismatch,
{
    if last_hash == anchor.last_header_hash {
        Ok(())
    } else {
        Err(HeaderSyncError::AnchorMismatch)
    }
}

/// Whether stored headers form a chain from height 0: the first links to the zero hash and
/// each other to the hash of the one before.
pub open spec fn chain_linked(headers: Seq<DirectoryHeader>) -> bool {
    forall|i: int|
        0 <= i < headers.len() ==> (#[trigger] headers[i]).prev@ == (if i == 0 {
            zero_hash()
        } else {
            spec_digest(header_encoding(headers[i - 1]))
        })
}

/// The hash the next stored header must link to: that of the last, or the zero hash.
pub open spec fn chain_tip(headers: Seq<DirectoryHeader>) -> Seq<u8> {
    if headers.len() == 0 {
        zero_hash()
    } else {
        spec_digest(header_encoding(headers.last()))
    }
}

/// The directory headers stored so far, by height from 0. Every batch is checked before it is
/// stored, so the stored headers always form a chain.
#[derive(Debug)]
pub struct HeaderChain {
    headers: Vec<DirectoryHeader>,
}

impl View for HeaderChain {
    type V = Seq<DirectoryHeader>;

    closed spec fn view(&self) -> Seq<DirectoryHeader> {
        self.headers@
    }
}

impl HeaderChain {
    /// The chain's invariant: the headers link up, and their heights fit in 64 bits.
    pub open spec fn wf(&self) -> bool {
        &&& chain_linked(self@)
        &&& self@.len() < u64::MAX
    }

    /// No headers stored.
    pub fn new() -> (c: HeaderChain)
        ensures
            c@ == Seq::<DirectoryHeader>::empty(),
            c.wf(),
    {
        HeaderChain { headers: Vec::new() }
    }

    /// The height the next header is stored at: the number of headers stored.
    pub fn next_height(&self) -> (h: u64)
        requires
            self.wf(),
        ensures
            h == self@.len(),
    {
        self.headers.len() as u64
    }

    /// The hash the next header must link to.
    pub fn tip_hash(&self) -> (h: crate::crypt::hash::Hash)
        ensures
            h@ == chain_tip(self@),
    {
        if self.headers.len() == 0 {
            crate::crypt::hash::Hash::zero()
        } else {
            self.headers[self.headers.len() - 1].hash()
        }
    }

    /// Stores a batch of headers fetched for the heights from the next one up to `end`, after
    /// `check_header_batch` accepts it against the chain's tip; a refused batch changes nothing.
    pub fn extend(&mut self, headers: &Vec<DirectoryHeader>, end: u64) -> (r: Result<(), HeaderSyncError>)
        requires
            old(self).wf(),
            old(self)@.len() <= end,
            end < u64::MAX - 1,
        ensures
            final(self).wf(),
            r is Ok ==> final(self)@ == old(self)@ + headers@,
            r is Err ==> final(self)@ == old(self)@,
            r is Ok <==> headers@.len() == end - old(self)@.len() + 1 && forall|i: int|
                0 <= i < headers@.len() ==> (#[trigger] headers@[i]).prev@ == batch_links(
                    chain_tip(old(self)@),
                    headers@,
                    i,
                ),
    {
        let next = self.next_height();
        let prev = self.tip_hash();
        match check_header_batch(prev, next, end, headers) {
            Err(e) => {
                proof {
                    if headers@.len() == end - next + 1 {
                        let i = choose|i: int|
                            0 <= i < headers@.len() && e == HeaderSyncError::ChainMismatch((next + i) as u64)
                                && (#[trigger] headers@[i]).prev@ != batch_links(prev@, headers@, i)
                                && forall|j: int| 0 <= j < i ==> headers@[j].prev@ == batch_links(prev@, headers@, j);
                        assert(headers@[i].prev@ != batch_links(prev@, headers@, i));
                    }
                }
                Err(e)
            },
            Ok(_) => {
                let ghost before = self.headers@;
                let mut i: usize = 0;
                while i < headers.len()
                    invariant
                        0 <= i <= headers@.len(),
                        headers@.len() == end - next + 1,
                        self.headers@ == before + headers@.subrange(0, i as int),
                    decreases headers@.len() - i,
                {
                    self.headers.push(headers[i]);
                    i = i + 1;
                    assert(self.headers@ =~= before + headers@.subrange(0, i as int));
                }
                assert(headers@.subrange(0, headers@.len() as int) =~= headers@);
                proof {
                    let w = self.headers@;
                    assert forall|k: int| 0 <= k < w.len() implies (#[trigger] w[k]).prev@ == (if k == 0 {
                        zero_hash()
                    } else {
                        spec_digest(header_encoding(w[k - 1]))
                    }) by {
                        if k < before.len() {
                            assert(w[k] == before[k]);
                            if k > 0 {
                                assert(w[k - 1] == before[k - 1]);
                            }
                        } else {
                            let j = k - before.len();
                            assert(w[k] == headers@[j]);
                            if j > 0 {
                                assert(w[k - 1] == headers@[j - 1]);
                            } else if k > 0 {
                                assert(w[k - 1] == before.last());
                            }
                        }
                    }
                }
                Ok(())
            },
        }
    }
}

} // verus!
