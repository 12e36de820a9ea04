//! Durable fixed-offset block storage keyed by page identifier.
//!
//! The pool is generic over [`DiskManager`]; [`MemDiskManager`] is a verified
//! in-memory implementation that mirrors the byte layout of a flat page file.
//! A file-backed implementation lives outside the verified library, since it
//! is all I/O at its edge.

use crate::page::{INVALID_PAGE_ID, PageId};
use vstd::prelude::*;

verus! {

/// Failure of the backing store.
#[derive(Debug, Clone, Copy, PartialEq, Eq, Structural)]
pub enum DiskError {
    /// A read touched a region that was never written.
    UnwrittenRegion,
    /// The backing store failed to carry out a transfer.
    Io,
}

/// Durable, fixed-size block storage keyed by page identifier.
///
/// `disk()` models the stored pages as a map from page identifier to that
/// page's bytes. A store may surface more pages than were explicitly written:
/// a flat file reads zero bytes from the gap below its highest written page.
/// The contracts therefore pin down how `write_page` extends and overwrites
/// the map, never its exact domain, and success is never owed: a backing
/// store may fail any transfer.
pub trait DiskManager: Sized {
    /// Number of bytes in every page of this store; fixed at construction.
    spec fn spec_page_size(&self) -> nat;

    /// The stored pages.
    spec fn disk(&self) -> Map<usize, Seq<u8>>;

    fn page_size(&self) -> (r: usize)
        ensures
            r == self.spec_page_size(),
    ;

    /// Reads page `page_id` into `data`, which must already hold exactly one
    /// page worth of bytes. On success `data` holds exactly the stored bytes;
    /// on failure its length, at least, is unchanged.
    fn read_page(&self, page_id: PageId, data: &mut Vec<u8>) -> (r: Result<(), DiskError>)
        requires
            page_id@ != INVALID_PAGE_ID,
            old(data)@.len() == self.spec_page_size(),
        ensures
            final(data)@.len() == old(data)@.len(),
            r is Ok ==> self.disk().dom().contains(page_id@) && final(data)@ == self.disk()[page_id@],
    ;

    /// Writes one page worth of bytes at `page_id`'s fixed offset, extending
    /// the store if necessary. On success the store holds exactly `data` at
    /// `page_id` and every previously stored page other than `page_id`
    /// unchanged; on failure nothing is promised of the stored pages (a
    /// partial transfer may have happened), but the page size is unchanged
    /// either way.
    fn write_page(&mut self, page_id: PageId, data: &Vec<u8>) -> (r: Result<(), DiskError>)
        requires
            page_id@ != INVALID_PAGE_ID,
            data@.len() == old(self).spec_page_size(),
        ensures
            final(self).spec_page_size() == old(self).spec_page_size(),
            r is Ok ==> {
                &&& final(self).disk().dom().contains(page_id@)
                &&& final(self).disk()[page_id@] == data@
                &&& forall|k: usize|
                    k != page_id@ && #[trigger] old(self).disk().dom().contains(k)
                        ==> final(self).disk().dom().contains(k) && final(self).disk()[k] == old(
                            self,
                        ).disk()[k]
            },
    ;
}

/// A page worth of zero bytes.
#[verifier::loop_isolation(false)]
pub(crate) fn zero_page(page_size: usize) -> (r: Vec<u8>)
    ensures
        r@.len() == page_size,
        forall|i: int| 0 <= i < page_size ==> r@[i] == 0u8,
{
    let mut data: Vec<u8> = Vec::new();
    while data.len() < page_size
        invariant
            data@.len() <= page_size,
            forall|i: int| 0 <= i < data@.len() ==> data@[i] == 0u8,
        decreases page_size - data@.len(),
    {
        data.push(0u8);
    }
    data
}

/// An owned copy of `src`.
#[verifier::loop_isolation(false)]
pub(crate) fn copy_bytes(src: &Vec<u8>) -> (r: Vec<u8>)
    ensures
        r@ == src@,
{
    let mut out: Vec<u8> = Vec::new();
    let n = src.len();
    let mut i: usize = 0;
    while i < n
        invariant
            i <= n,
            out@ == src@.subrange(0, i as int),
        decreases n - i,
    {
        out.push(src[i]);
        i = i + 1;
    }
    proof {
        assert(out@ =~= src@);
    }
    out
}

/// An in-memory [`DiskManager`]: a growable array of fixed-size pages laid
/// out as a flat page file would be. Writing past the end zero-fills the gap,
/// as a seek-and-write past the end of a file does.
pub struct MemDiskManager {
    page_size: usize,
    pages: Vec<Vec<u8>>,
}

impl MemDiskManager {
    /// An empty store of `page_size`-byte pages.
    pub fn new(page_size: usize) -> (r: Self)
        ensures
            r.spec_page_size() == page_size,
            r.disk() == Map::<usize, Seq<u8>>::empty(),
    {
        let r = MemDiskManager { page_size, pages: Vec::new() };
        proof {
            assert(r.disk() =~= Map::<usize, Seq<u8>>::empty());
        }
        r
    }
}

impl DiskManager for MemDiskManager {
    closed spec fn spec_page_size(&self) -> nat {
        self.page_size as nat
    }

    closed spec fn disk(&self) -> Map<usize, Seq<u8>> {
        Map::new(|k: usize| k < self.pages@.len(), |k: usize| self.pages@[k as int]@)
    }

    fn page_size(&self) -> (r: usize) {
        self.page_size
    }

    /// Beyond the trait contract: reading succeeds exactly when the store
    /// holds the page with the buffer's length — which every page of a store
    /// built by `new` and `write_page` has.
    #[verifier::loop_isolation(false)]
    fn read_page(&self, page_id: PageId, data: &mut Vec<u8>) -> (r: Result<(), DiskError>)
        ensures
            r is Ok <==> (self.disk().dom().contains(page_id@) && self.disk()[page_id@].len()
                == old(data)@.len()),
    {
        let id = page_id.as_usize();
        // Every page a store built by `new` and `write_page` holds has exactly
        // `page_size` bytes, the length of `data`; the second test never fails
        // then, and keeps the slot's buffer length a fact rather than a claim.
        if id < self.pages.len() && self.pages[id].len() == data.len() {
            let n = data.len();
            let mut j: usize = 0;
            while j < n
                invariant
                    j <= n,
                    data@.len() == n,
                    forall|k: int| 0 <= k < j ==> data@[k] == self.pages@[id as int]@[k],
                decreases n - j,
            {
                let b = self.pages[id][j];
                data.set(j, b);
                j = j + 1;
            }
            proof {
                assert(data@ =~= self.pages@[id as int]@);
            }
            Ok(())
        } else {
            Err(DiskError::UnwrittenRegion)
        }
    }

    /// Beyond the trait contract: an in-memory write always succeeds.
    #[verifier::loop_isolation(false)]
    fn write_page(&mut self, page_id: PageId, data: &Vec<u8>) -> (r: Result<(), DiskError>)
        ensures
            r is Ok,
    {
        let id = page_id.as_usize();
        while self.pages.len() <= id
            invariant
                self.page_size == old(self).page_size,
                old(self).pages@.len() <= self.pages@.len(),
                forall|i: int|
                    0 <= i < old(self).pages@.len() ==> self.pages@[i] == old(self).pages@[i],
            decreases id + 1 - self.pages@.len(),
        {
            let z = zero_page(self.page_size);
            self.pages.push(z);
        }
        let copy = copy_bytes(data);
        self.pages.set(id, copy);
        proof {
            assert(self.disk().dom().contains(page_id@));
            assert(self.disk()[page_id@] == data@);
        }
        Ok(())
    }
}

} // verus!
