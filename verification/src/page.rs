//! A fixed-size page slot: identity, pin and dirty bookkeeping over a byte
//! buffer whose length never changes for the lifetime of the slot.

use vstd::prelude::*;

verus! {

/// Default number of bytes in one page.
pub const DEFAULT_PAGE_SIZE: usize = 4096 * 2;

/// Reserved sentinel: a slot whose identifier equals this value holds no page.
pub const INVALID_PAGE_ID: usize = usize::MAX;

/// Stable logical identifier of a page's content, independent of the physical
/// slot that caches it. Identifiers are handed out monotonically and never
/// reused once retired.
#[derive(Debug, Clone, Copy, PartialEq, Eq, Structural, PartialOrd, Ord, Hash)]
pub struct PageId(usize);

impl View for PageId {
    type V = usize;

    closed spec fn view(&self) -> usize {
        self.0
    }
}

impl PageId {
    pub fn new(id: usize) -> (r: Self)
        ensures
            r@ == id,
    {
        PageId(id)
    }

    pub fn new_invalid() -> (r: Self)
        ensures
            r@ == INVALID_PAGE_ID,
    {
        PageId(usize::MAX)
    }

    pub fn is_valid(&self) -> (r: bool)
        ensures
            r == (self@ != INVALID_PAGE_ID),
    {
        self.0 != usize::MAX
    }

    /// Byte offset of this page in a flat page file: identifier times page size.
    pub fn offset(&self, page_size: usize) -> (r: usize)
        requires
            self@ * page_size <= usize::MAX,
        ensures
            r == self@ * page_size,
    {
        self.0 * page_size
    }

    pub fn as_usize(&self) -> (r: usize)
        ensures
            r == self@,
    {
        self.0
    }
}

/// Mathematical model of one page slot.
pub struct PageView {
    /// Identifier of the resident page, or [`INVALID_PAGE_ID`].
    pub page_id: usize,
    /// Whether the in-memory bytes changed since they were last written to disk.
    /// Meaningful only while a page is resident.
    pub is_dirty: bool,
    /// Number of active holders of the resident page.
    pub pin_count: usize,
    /// The slot's byte buffer.
    pub data: Seq<u8>,
}

/// One fixed-size slot of the buffer pool. The buffer's length is set at
/// construction and kept constant by every operation.
#[derive(Debug)]
pub struct Page {
    page_id: PageId,
    is_dirty: bool,
    pin_count: usize,
    data: Vec<u8>,
}

impl View for Page {
    type V = PageView;

    closed spec fn view(&self) -> PageView {
        PageView {
            page_id: self.page_id@,
            is_dirty: self.is_dirty,
            pin_count: self.pin_count,
            data: self.data@,
        }
    }
}

impl Page {
    /// A fresh, unallocated slot holding `page_size` zero bytes.
    #[verifier::loop_isolation(false)]
    pub fn new_raw(page_size: usize) -> (r: Self)
        ensures
            r@.page_id == INVALID_PAGE_ID,
            !r@.is_dirty,
            r@.pin_count == 0,
            r@.data.len() == page_size,
            forall|i: int| 0 <= i < page_size ==> r@.data[i] == 0u8,
    {
        let mut data: Vec<u8> = Vec::new();
        while data.len() < page_size
            invariant
                data@.len() <= page_size,
                forall|i: int| 0 <= i < data@.len() ==> data@[i] == 0u8,
            decreases page_size - data@.len(),
        {
            data.push(0u8);
        }
        Page { page_id: PageId::new_invalid(), is_dirty: false, pin_count: 0, data }
    }

    /// Same as [`Page::new_raw`]; the pool owns its slots directly, so no lock
    /// wrapper is placed around the fresh slot.
    pub fn new(page_size: usize) -> (r: Self)
        ensures
            r@.page_id == INVALID_PAGE_ID,
            !r@.is_dirty,
            r@.pin_count == 0,
            r@.data.len() == page_size,
            forall|i: int| 0 <= i < page_size ==> r@.data[i] == 0u8,
    {
        Page::new_raw(page_size)
    }

    /// Binds the slot to `page_id` and starts it with pin count 1, the
    /// creating or fetching caller's reference. The pin count is set, not
    /// incremented: a slot is only ever allocated while unpinned, so the two
    /// agree in the pool, and setting keeps the slot's contract local.
    pub fn allocate_page(&mut self, page_id: PageId)
        ensures
            final(self)@ == (PageView { page_id: page_id@, pin_count: 1, ..old(self)@ }),
    {
        self.page_id = page_id;
        self.pin_count = 1;
    }

    pub fn is_pinned(&self) -> (r: bool)
        ensures
            r == (self@.pin_count > 0),
    {
        self.pin_count > 0
    }

    pub fn set_dirty(&mut self)
        ensures
            final(self)@ == (PageView { is_dirty: true, ..old(self)@ }),
    {
        self.is_dirty = true;
    }

    pub fn clear_dirty(&mut self)
        ensures
            final(self)@ == (PageView { is_dirty: false, ..old(self)@ }),
    {
        self.is_dirty = false;
    }

    pub fn is_dirty(&self) -> (r: bool)
        ensures
            r == self@.is_dirty,
    {
        self.is_dirty
    }

    pub fn pin(&mut self)
        requires
            old(self)@.pin_count < usize::MAX,
        ensures
            final(self)@ == (PageView { pin_count: (old(self)@.pin_count + 1) as usize, ..old(self)@ }),
    {
        self.pin_count = self.pin_count + 1;
    }

    /// Decrements the pin count, saturating at zero: it never goes negative.
    pub fn unpin(&mut self)
        ensures
            final(self)@ == (PageView {
                pin_count: if old(self)@.pin_count > 0 {
                    (old(self)@.pin_count - 1) as usize
                } else {
                    0usize
                },
                ..old(self)@
            }),
    {
        if self.pin_count > 0 {
            self.pin_count = self.pin_count - 1;
        }
    }

    /// Resets the slot's identity and dirty flag. The pin count is left
    /// untouched: the pool only deallocates unpinned slots, so it is already
    /// zero whenever this runs there.
    pub fn deallocate_page(&mut self)
        ensures
            final(self)@ == (PageView {
                page_id: INVALID_PAGE_ID,
                is_dirty: false,
                ..old(self)@
            }),
    {
        self.page_id = PageId::new_invalid();
        self.is_dirty = false;
    }

    /// The resident page's identifier, or `None` for an unallocated slot.
    pub fn page_id(&self) -> (r: Option<PageId>)
        ensures
            r is Some <==> self@.page_id != INVALID_PAGE_ID,
            r matches Some(p) ==> p@ == self@.page_id,
    {
        if self.page_id.is_valid() {
            Some(self.page_id)
        } else {
            None
        }
    }

    pub fn is_allocated(&self) -> (r: bool)
        ensures
            r == (self@.page_id != INVALID_PAGE_ID),
    {
        self.page_id.is_valid()
    }

    pub fn page_size(&self) -> (r: usize)
        ensures
            r == self@.data.len(),
    {
        self.data.len()
    }

    pub fn data(&self) -> (r: &Vec<u8>)
        ensures
            r@ == self@.data,
    {
        &self.data
    }

    /// Write access to the whole buffer. The borrow is of the owned vector,
    /// so a caller could resize it; the buffer's length is meant to stay
    /// constant for the slot's lifetime, and the pool's invariant — which
    /// every pool operation requires — holds callers to that. A caller that
    /// wants the constancy enforced uses [`Page::write_data`], which cannot
    /// resize.
    pub fn data_mut(&mut self) -> (r: &mut Vec<u8>)
        ensures
            (*r)@ == old(self)@.data,
            final(self)@ == (PageView { data: (*final(r))@, ..old(self)@ }),
    {
        &mut self.data
    }

    /// Overwrites the buffer with `src`, which must have the same length.
    #[verifier::loop_isolation(false)]
    pub fn write_data(&mut self, src: &Vec<u8>)
        requires
            src@.len() == old(self)@.data.len(),
        ensures
            final(self)@ == (PageView { data: src@, ..old(self)@ }),
    {
        let n = src.len();
        let mut i: usize = 0;
        while i < n
            invariant
                i <= n,
                self@.data.len() == old(self)@.data.len(),
                self@.page_id == old(self)@.page_id,
                self@.is_dirty == old(self)@.is_dirty,
                self@.pin_count == old(self)@.pin_count,
                forall|j: int| 0 <= j < i ==> self@.data[j] == src@[j],
            decreases n - i,
        {
            self.data.set(i, src[i]);
            i = i + 1;
        }
        proof {
            assert(self@.data =~= src@);
            assert(self@ == (PageView { data: src@, ..old(self)@ }));
        }
    }
}

} // verus!
