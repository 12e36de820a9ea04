//! The buffer pool manager: a bounded pool of page slots shared by all
//! callers, caching pages of one backing store.
//!
//! The pool owns a fixed array of [`Page`] slots, a page table mapping each
//! resident page identifier to the frame caching it, a first-in first-out
//! free list of frames holding no page, and a monotonically increasing page
//! identifier counter. A caller asks for a brand-new page or for a page by
//! identifier; the pool resolves a frame (cache hit, free frame, or eviction
//! victim), loads or initializes it, and hands the frame back.

use crate::disk::{DiskError, DiskManager, copy_bytes, zero_page};
use crate::page::{INVALID_PAGE_ID, Page, PageId, PageView};
use crate::page_table::{table_entries, table_get, table_insert, table_new, table_remove};
use vstd::prelude::*;

verus! {

/// Index of a physical slot in the fixed-size pool; a namespace distinct
/// from [`PageId`].
#[derive(Debug, Clone, Copy, PartialEq, Eq, Structural, PartialOrd, Ord, Hash)]
pub struct FrameId(usize);

impl View for FrameId {
    type V = usize;

    closed spec fn view(&self) -> usize {
        self.0
    }
}

impl FrameId {
    pub fn new(id: usize) -> (r: Self)
        ensures
            r@ == id,
    {
        FrameId(id)
    }

    pub fn as_usize(&self) -> (r: usize)
        ensures
            r == self@,
    {
        self.0
    }
}

/// How one backing-store write may change the stored pages: `id` now holds
/// `bytes`, every other already-present page is unchanged, and pages may
/// appear (a flat store zero-fills the gap below a new highest page).
pub open spec fn store_updated(
    pre: Map<usize, Seq<u8>>,
    post: Map<usize, Seq<u8>>,
    id: usize,
    bytes: Seq<u8>,
) -> bool {
    &&& post.dom().contains(id)
    &&& post[id] == bytes
    &&& forall|k: usize|
        k != id && #[trigger] pre.dom().contains(k) ==> post.dom().contains(k) && post[k] == pre[k]
}

/// A slot holding a page that no caller has pinned may be evicted.
pub open spec fn evictable(pv: PageView) -> bool {
    pv.page_id != INVALID_PAGE_ID && pv.pin_count == 0
}

/// Within `pool`, frame `g` is the first one an eviction scan reclaims, and
/// reclaiming it needs no store write: its page is clean.
pub open spec fn first_victim_clean<D: DiskManager>(
    pool: BufferPoolManagerImpl<D>,
    g: int,
) -> bool {
    &&& 0 <= g < pool.pages@.len()
    &&& evictable(pool.pages@[g]@)
    &&& !pool.pages@[g]@.is_dirty
    &&& forall|h: int| 0 <= h < g ==> !evictable((#[trigger] pool.pages@[h])@)
}

/// A pool whose free list is empty has a page in every frame: an unallocated
/// frame would sit in the free list.
proof fn lemma_no_free_frame_all_allocated<D: DiskManager>(s: &BufferPoolManagerImpl<D>)
    requires
        s.inv(),
        s.free_list@.len() == 0,
    ensures
        forall|g: int|
            0 <= g < s.pages@.len() ==> (#[trigger] s.pages@[g])@.page_id != INVALID_PAGE_ID,
{
    assert forall|g: int|
        0 <= g < s.pages@.len() implies (#[trigger] s.pages@[g])@.page_id
        != INVALID_PAGE_ID by {
        if s.pages@[g]@.page_id == INVALID_PAGE_ID {
            assert(s.in_free_list(g));
        }
    }
}

/// Relates a pool `s0` to its state `s1` after a frame `f` was taken for
/// reuse — popped from the free list or reclaimed by eviction — and before a
/// page is installed in it: the frame is unallocated, clean, outside the
/// free list, and accounted as the one frame in flight.
pub open spec fn frame_in_flight<D: DiskManager>(
    s0: BufferPoolManagerImpl<D>,
    s1: BufferPoolManagerImpl<D>,
    f: usize,
) -> bool {
    &&& s1.inv_core()
    &&& f < s1.pages@.len()
    &&& s1.pages@.len() == s0.pages@.len()
    &&& s1.next_page_id == s0.next_page_id
    &&& s1.spec_page_size() == s0.spec_page_size()
    &&& s1.pages@[f as int]@.page_id == INVALID_PAGE_ID
    &&& !s1.pages@[f as int]@.is_dirty
    &&& table_entries(s1.page_table).dom().len() + s1.free_list@.len() + 1 == s1.pages@.len()
    &&& forall|i: int| 0 <= i < s1.free_list@.len() ==> (#[trigger] s1.free_list@[i])@ != f
    &&& forall|g: int|
        0 <= g < s1.pages@.len() && g != f && (#[trigger] s1.pages@[g])@.page_id
            == INVALID_PAGE_ID ==> s1.in_free_list(g)
}

/// A pool with an empty free list and no evictable slot holds a pinned page
/// in every frame: its page table is full.
proof fn lemma_full_pool_all_pinned<D: DiskManager>(s: &BufferPoolManagerImpl<D>)
    requires
        s.inv(),
        s.free_list@.len() == 0,
        forall|g: int| 0 <= g < s.pages@.len() ==> !evictable((#[trigger] s.pages@[g])@),
    ensures
        s.table().dom().len() == s.pages@.len(),
        forall|g: int| 0 <= g < s.pages@.len() ==> (#[trigger] s.pages@[g])@.pin_count > 0,
{
    assert forall|g: int| 0 <= g < s.pages@.len() implies (#[trigger] s.pages@[g])@.pin_count
        > 0 by {
        if s.pages@[g]@.page_id == INVALID_PAGE_ID {
            assert(s.in_free_list(g));
        }
    }
}

/// Installing page `id` in the in-flight frame `f` — binding the slot to
/// `id` and inserting the table entry — restores the pool invariant.
proof fn lemma_install<D: DiskManager>(
    s0: &BufferPoolManagerImpl<D>,
    s1: BufferPoolManagerImpl<D>,
    s2: &BufferPoolManagerImpl<D>,
    f: usize,
    id: usize,
)
    requires
        frame_in_flight(*s0, s1, f),
        id != INVALID_PAGE_ID,
        id < s2.next_page_id,
        s1.next_page_id <= s2.next_page_id,
        !table_entries(s1.page_table).dom().contains(id),
        s2.pages@.len() == s1.pages@.len(),
        s2.pages@ == s1.pages@.update(f as int, s2.pages@[f as int]),
        s2.pages@[f as int]@.page_id == id,
        s2.pages@[f as int]@.data.len() == s1.spec_page_size(),
        table_entries(s2.page_table) == table_entries(s1.page_table).insert(id, f),
        s2.free_list == s1.free_list,
        s2.spec_page_size() == s1.spec_page_size(),
    ensures
        s2.inv(),
{
    let t1 = table_entries(s1.page_table);
    let t2 = table_entries(s2.page_table);
    let n = s2.pages@.len();
    assert(t2.dom() =~= t1.dom().insert(id));
    assert(t2.dom().len() == t1.dom().len() + 1);
    assert forall|k: usize| #[trigger]
        t2.dom().contains(k) implies t2[k] < n && s2.pages@[t2[k] as int]@.page_id == k && k
        < s2.next_page_id by {
        if k != id {
            assert(t1.dom().contains(k));
            assert(s1.pages@[t1[k] as int]@.page_id == k);
            assert(t1[k] != f);
        }
    }
    assert forall|g: int|
        0 <= g < n && (#[trigger] s2.pages@[g])@.page_id != INVALID_PAGE_ID implies t2.dom()
        .contains(s2.pages@[g]@.page_id) && t2[s2.pages@[g]@.page_id] == g by {
        if g != f {
            assert(s2.pages@[g] == s1.pages@[g]);
            assert(t1.dom().contains(s1.pages@[g]@.page_id));
            assert(t1[s1.pages@[g]@.page_id] == g);
            assert(s1.pages@[g]@.page_id != id);
        }
    }
    assert forall|g: int|
        0 <= g < n && (#[trigger] s2.pages@[g])@.page_id == INVALID_PAGE_ID implies s2
        .in_free_list(g) by {
        assert(g != f);
        assert(s1.in_free_list(g));
        let i = choose|i: int|
            0 <= i < s1.free_list@.len() && (#[trigger] s1.free_list@[i])@ == g;
        assert(s2.free_list@[i]@ == g);
    }
}

/// The buffer pool interface: allocation, caching, eviction and flushing of
/// fixed-size pages over a backing store.
///
/// The model is four spec functions: `frames()` (the slot array), `table()`
/// (resident page identifier to frame), `store()` (the backing store's
/// pages), and `next_id()` (the identifier counter). Every operation requires
/// and preserves `inv()`.
pub trait BufferPoolManager: Sized {
    /// Model of the slot array, one [`PageView`] per frame, in frame order.
    spec fn frames(&self) -> Seq<PageView>;

    /// Model of the page table: each resident page's identifier, mapped to
    /// the frame caching it.
    spec fn table(&self) -> Map<usize, usize>;

    /// Model of the backing store's pages.
    spec fn store(&self) -> Map<usize, Seq<u8>>;

    /// The identifier the next successful `new_page` hands out.
    spec fn next_id(&self) -> usize;

    /// Number of bytes in every page.
    spec fn spec_page_size(&self) -> nat;

    /// The pool's internal invariant: established by construction, required
    /// and preserved by every operation.
    spec fn inv(&self) -> bool;

    /// Number of slots in the pool.
    fn get_pool_size(&self) -> (r: usize)
        ensures
            r == self.frames().len(),
    ;

    /// Read access to every slot in the pool, in frame order.
    fn get_pages(&self) -> (r: &Vec<Page>)
        ensures
            r@.len() == self.frames().len(),
            forall|f: int| 0 <= f < r@.len() ==> (#[trigger] r@[f])@ == self.frames()[f],
    ;

    /// Allocates a fresh page bound to a frame; the slot starts pinned at 1,
    /// which keeps an eviction scan away from it until the creator unpins it,
    /// and keeps its previous bytes (a caller initializes them under its
    /// pin). `Ok(None)` is the normal "no capacity" outcome: every frame
    /// holds a pinned page, and nothing changed. `Err` propagates a failure
    /// to flush a dirty eviction victim; the pool itself is then unchanged.
    fn new_page(&mut self) -> (r: Result<Option<(PageId, FrameId)>, DiskError>)
        requires
            old(self).inv(),
            old(self).next_id() < INVALID_PAGE_ID,
        ensures
            final(self).inv(),
            final(self).frames().len() == old(self).frames().len(),
            final(self).spec_page_size() == old(self).spec_page_size(),
            (exists|g: int|
                0 <= g < old(self).frames().len() && (#[trigger] old(self).frames()[g]).page_id
                    == INVALID_PAGE_ID) ==> r is Ok && r->Ok_0 is Some,
            (forall|g: int|
                0 <= g < old(self).frames().len() ==> (#[trigger] old(self).frames()[g]).page_id
                    != INVALID_PAGE_ID && old(self).frames()[g].pin_count > 0) ==> r is Ok
                && r->Ok_0 is None,
            match r {
                Ok(Some((id, f))) => {
                    let vid = old(self).frames()[f@ as int].page_id;
                    &&& id@ == old(self).next_id()
                    &&& final(self).next_id() == old(self).next_id() + 1
                    &&& f@ < old(self).frames().len()
                    &&& !old(self).table().dom().contains(id@)
                    &&& final(self).table().dom().contains(id@)
                    &&& final(self).table()[id@] == f@
                    &&& final(self).frames()[f@ as int] == (PageView {
                        page_id: id@,
                        is_dirty: false,
                        pin_count: 1,
                        data: old(self).frames()[f@ as int].data,
                    })
                    &&& forall|g: int|
                        0 <= g < old(self).frames().len() && g != f@
                            ==> final(self).frames()[g] == old(self).frames()[g]
                    &&& if vid == INVALID_PAGE_ID {
                        final(self).table() == old(self).table().insert(id@, f@)
                            && final(self).store() == old(self).store()
                    } else {
                        &&& old(self).table().dom().contains(vid)
                        &&& old(self).table()[vid] == f@
                        &&& old(self).frames()[f@ as int].pin_count == 0
                        &&& final(self).table() == old(self).table().remove(vid).insert(id@, f@)
                        &&& if old(self).frames()[f@ as int].is_dirty {
                            store_updated(
                                old(self).store(),
                                final(self).store(),
                                vid,
                                old(self).frames()[f@ as int].data,
                            )
                        } else {
                            final(self).store() == old(self).store()
                        }
                    }
                },
                Ok(None) => {
                    &&& *final(self) == *old(self)
                    &&& old(self).table().dom().len() == old(self).frames().len()
                    &&& forall|g: int|
                        0 <= g < old(self).frames().len()
                            ==> (#[trigger] old(self).frames()[g]).pin_count > 0
                },
                Err(_) => {
                    &&& final(self).frames() == old(self).frames()
                    &&& final(self).table() == old(self).table()
                    &&& final(self).next_id() == old(self).next_id()
                },
            },
    ;

    /// Returns the frame caching `page_id`. A cache hit changes nothing; in
    /// particular it does not raise the pin count, a deliberate asymmetry
    /// with `new_page` that leaves pinning an already-resident page to the
    /// caller. On a miss the page is read from the store first — a failed
    /// read leaves the pool unchanged — and only then is a frame resolved as
    /// in `new_page`; the loaded slot starts pinned at 1. `Ok(None)` is the
    /// same "no capacity" outcome as in `new_page`.
    ///
    /// Page identifiers are born in `new_page`, so only identifiers below
    /// the counter may be fetched: a foreign identifier could collide with
    /// one the counter hands out later, leaving two frames claiming it.
    fn fetch_page(&mut self, page_id: PageId) -> (r: Result<Option<FrameId>, DiskError>)
        requires
            old(self).inv(),
            page_id@ < old(self).next_id(),
        ensures
            final(self).inv(),
            final(self).frames().len() == old(self).frames().len(),
            final(self).spec_page_size() == old(self).spec_page_size(),
            final(self).next_id() == old(self).next_id(),
            old(self).table().dom().contains(page_id@) ==> {
                &&& *final(self) == *old(self)
                &&& r is Ok
                &&& r->Ok_0 is Some
                &&& (r->Ok_0->Some_0)@ == old(self).table()[page_id@]
            },
            !old(self).table().dom().contains(page_id@) ==> match r {
                Ok(Some(f)) => {
                    let vid = old(self).frames()[f@ as int].page_id;
                    &&& f@ < old(self).frames().len()
                    &&& old(self).store().dom().contains(page_id@)
                    &&& final(self).table().dom().contains(page_id@)
                    &&& final(self).table()[page_id@] == f@
                    &&& final(self).frames()[f@ as int] == (PageView {
                        page_id: page_id@,
                        is_dirty: false,
                        pin_count: 1,
                        data: old(self).store()[page_id@],
                    })
                    &&& forall|g: int|
                        0 <= g < old(self).frames().len() && g != f@
                            ==> final(self).frames()[g] == old(self).frames()[g]
                    &&& if vid == INVALID_PAGE_ID {
                        final(self).table() == old(self).table().insert(page_id@, f@)
                            && final(self).store() == old(self).store()
                    } else {
                        &&& old(self).table().dom().contains(vid)
                        &&& old(self).table()[vid] == f@
                        &&& old(self).frames()[f@ as int].pin_count == 0
                        &&& final(self).table() == old(self).table().remove(vid).insert(
                            page_id@,
                            f@,
                        )
                        &&& if old(self).frames()[f@ as int].is_dirty {
                            store_updated(
                                old(self).store(),
                                final(self).store(),
                                vid,
                                old(self).frames()[f@ as int].data,
                            )
                        } else {
                            final(self).store() == old(self).store()
                        }
                    }
                },
                Ok(None) => {
                    &&& *final(self) == *old(self)
                    &&& old(self).table().dom().len() == old(self).frames().len()
                    &&& forall|g: int|
                        0 <= g < old(self).frames().len()
                            ==> (#[trigger] old(self).frames()[g]).pin_count > 0
                },
                Err(_) => {
                    &&& final(self).frames() == old(self).frames()
                    &&& final(self).table() == old(self).table()
                },
            },
    ;

    /// Releases one pin of the resident page `page_id`, marking the page
    /// dirty when `is_dirty` holds. Returns false, changing nothing, when
    /// the page is not resident or its pin count is already zero: the count
    /// never goes negative, and a double release is refused.
    fn unpin_page(&mut self, page_id: PageId, is_dirty: bool) -> (r: bool)
        requires
            old(self).inv(),
        ensures
            final(self).inv(),
            r == (old(self).table().dom().contains(page_id@) && old(self).frames()[old(
                self,
            ).table()[page_id@] as int].pin_count > 0),
            !r ==> *final(self) == *old(self),
            r ==> {
                let f = old(self).table()[page_id@] as int;
                &&& final(self).table() == old(self).table()
                &&& final(self).store() == old(self).store()
                &&& final(self).next_id() == old(self).next_id()
                &&& final(self).frames() == old(self).frames().update(
                    f,
                    (PageView {
                        pin_count: (old(self).frames()[f].pin_count - 1) as usize,
                        is_dirty: old(self).frames()[f].is_dirty || is_dirty,
                        ..old(self).frames()[f]
                    }),
                )
            },
    ;

    /// Writes the resident page `page_id`'s buffer to the store — regardless
    /// of the dirty flag — and clears the flag. `Ok(false)` reports, changing
    /// nothing, that the page is not resident; `Err` propagates a store
    /// failure, leaving every slot (the flag included) unchanged.
    fn flush_page(&mut self, page_id: PageId) -> (r: Result<bool, DiskError>)
        requires
            old(self).inv(),
        ensures
            final(self).inv(),
            final(self).table() == old(self).table(),
            final(self).next_id() == old(self).next_id(),
            final(self).frames().len() == old(self).frames().len(),
            final(self).spec_page_size() == old(self).spec_page_size(),
            !old(self).table().dom().contains(page_id@) ==> r is Ok,
            match r {
                Ok(b) => {
                    &&& b == old(self).table().dom().contains(page_id@)
                    &&& !b ==> *final(self) == *old(self)
                    &&& b ==> {
                        let f = old(self).table()[page_id@] as int;
                        &&& store_updated(
                            old(self).store(),
                            final(self).store(),
                            page_id@,
                            old(self).frames()[f].data,
                        )
                        &&& final(self).frames() == old(self).frames().update(
                            f,
                            (PageView { is_dirty: false, ..old(self).frames()[f] }),
                        )
                    }
                },
                Err(_) => final(self).frames() == old(self).frames(),
            },
    ;

    /// Writes every resident page's buffer to the store, in frame order and
    /// regardless of the dirty flags; the slots themselves, flags included,
    /// are untouched. Meant for shutdown durability. `Err` propagates the
    /// first store failure; earlier slots may already have been written.
    fn flush_all_pages(&mut self) -> (r: Result<(), DiskError>)
        requires
            old(self).inv(),
        ensures
            final(self).inv(),
            final(self).frames() == old(self).frames(),
            final(self).table() == old(self).table(),
            final(self).next_id() == old(self).next_id(),
            final(self).spec_page_size() == old(self).spec_page_size(),
            (forall|g: int|
                0 <= g < old(self).frames().len() ==> (#[trigger] old(self).frames()[g]).page_id
                    == INVALID_PAGE_ID) ==> r is Ok,
            r is Ok ==> {
                let pre = *old(self);
                let post = *final(self);
                &&& forall|g: int|
                    0 <= g < pre.frames().len() && (#[trigger] pre.frames()[g]).page_id
                        != INVALID_PAGE_ID ==> post.store().dom().contains(
                        pre.frames()[g].page_id,
                    ) && post.store()[pre.frames()[g].page_id] == pre.frames()[g].data
                &&& forall|k: usize|
                    #[trigger] pre.store().dom().contains(k) && !pre.table().dom().contains(k)
                        ==> post.store().dom().contains(k) && post.store()[k] == pre.store()[k]
            },
    ;

    /// Removes the resident page `page_id` from the pool: refused (false,
    /// nothing changes) while the page is pinned; otherwise its table entry
    /// goes, its frame returns to the free list, and its slot is reset. The
    /// bytes are not written to the store: deleting drops them. Deleting an
    /// identifier that is not resident is a successful no-op (true). The
    /// identifier is retired, never handed out again.
    fn delete_page(&mut self, page_id: PageId) -> (r: bool)
        requires
            old(self).inv(),
        ensures
            final(self).inv(),
            final(self).store() == old(self).store(),
            final(self).next_id() == old(self).next_id(),
            final(self).frames().len() == old(self).frames().len(),
            final(self).spec_page_size() == old(self).spec_page_size(),
            !old(self).table().dom().contains(page_id@) ==> r && *final(self) == *old(self),
            old(self).table().dom().contains(page_id@) && old(self).frames()[old(
                self,
            ).table()[page_id@] as int].pin_count > 0 ==> !r && *final(self) == *old(self),
            old(self).table().dom().contains(page_id@) && old(self).frames()[old(
                self,
            ).table()[page_id@] as int].pin_count == 0 ==> {
                let f = old(self).table()[page_id@] as int;
                &&& r
                &&& final(self).table() == old(self).table().remove(page_id@)
                &&& final(self).frames() == old(self).frames().update(
                    f,
                    (PageView {
                        page_id: INVALID_PAGE_ID,
                        is_dirty: false,
                        ..old(self).frames()[f]
                    }),
                )
            },
    ;
}

/// The buffer pool manager over a backing store `D`.
///
/// All fields are public so that the pool's invariant, an open spec
/// function, can speak of them; executable callers go through the methods,
/// which require and preserve that invariant.
pub struct BufferPoolManagerImpl<D: DiskManager> {
    /// The fixed array of lockable page slots; here owned directly, the
    /// sequential form of per-slot exclusive access.
    pub pages: Vec<Page>,
    /// Identifier the next successful `new_page` hands out.
    pub next_page_id: usize,
    /// Map from resident page identifier to the frame caching it.
    pub page_table: dashmap::DashMap<usize, usize>,
    /// Frames holding no resident page, oldest first.
    pub free_list: Vec<FrameId>,
    /// The backing store.
    pub disk_manager: D,
}

impl<D: DiskManager> BufferPoolManagerImpl<D> {
    /// Whether frame `g` is somewhere in the free list.
    pub open spec fn in_free_list(&self, g: int) -> bool {
        exists|i: int|
            0 <= i < self.free_list@.len() && (#[trigger] self.free_list@[i])@ == g
    }

    /// The invariant clauses that hold even while one frame is in flight
    /// between leaving the free list (or an eviction) and receiving a page:
    /// every slot buffer has the configured page size; the page table maps
    /// each resident identifier, already handed out by the counter, to the
    /// frame whose slot records exactly that identifier, and conversely; and
    /// free-listed frames are distinct, in range, unallocated and clean.
    pub open spec fn inv_core(&self) -> bool {
        let t = table_entries(self.page_table);
        let n = self.pages@.len();
        &&& forall|f: int|
            0 <= f < n ==> (#[trigger] self.pages@[f])@.data.len()
                == self.disk_manager.spec_page_size()
        &&& forall|k: usize| #[trigger]
            t.dom().contains(k) ==> t[k] < n && self.pages@[t[k] as int]@.page_id == k && k
                < self.next_page_id
        &&& forall|f: int|
            0 <= f < n && (#[trigger] self.pages@[f])@.page_id != INVALID_PAGE_ID ==> t.dom()
                .contains(self.pages@[f]@.page_id) && t[self.pages@[f]@.page_id] == f
        &&& t.dom().finite()
        &&& forall|i: int|
            0 <= i < self.free_list@.len() ==> (#[trigger] self.free_list@[i])@ < n
                && self.pages@[self.free_list@[i]@ as int]@.page_id == INVALID_PAGE_ID
                && !self.pages@[self.free_list@[i]@ as int]@.is_dirty
        &&& forall|i: int, j: int|
            0 <= i < j < self.free_list@.len() ==> self.free_list@[i]@ != self.free_list@[j]@
    }

    /// Every frame is accounted for: the resident pages and the free list
    /// together cover the pool exactly, so in particular every unallocated
    /// frame sits in the free list.
    pub open spec fn frames_partitioned(&self) -> bool {
        &&& table_entries(self.page_table).dom().len() + self.free_list@.len()
            == self.pages@.len()
        &&& forall|g: int|
            0 <= g < self.pages@.len() && (#[trigger] self.pages@[g])@.page_id
                == INVALID_PAGE_ID ==> self.in_free_list(g)
    }

    /// A pool of `pool_size` fresh slots over `disk_manager`: nothing
    /// resident, every frame free, identifiers starting at zero.
    #[verifier::loop_isolation(false)]
    pub fn new(pool_size: usize, disk_manager: D) -> (r: Self)
        ensures
            r.inv(),
            r.frames().len() == pool_size,
            r.table().dom() == Set::<usize>::empty(),
            r.next_id() == 0,
            r.store() == disk_manager.disk(),
            r.spec_page_size() == disk_manager.spec_page_size(),
            forall|f: int|
                0 <= f < pool_size ==> (#[trigger] r.frames()[f]).page_id == INVALID_PAGE_ID
                    && r.frames()[f].pin_count == 0 && !r.frames()[f].is_dirty,
            forall|f: int|
                0 <= f < pool_size ==> (#[trigger] r.frames()[f]).data == Seq::new(
                    disk_manager.spec_page_size(),
                    |i: int| 0u8,
                ),
            r.free_list@.len() == pool_size,
            forall|i: int| 0 <= i < pool_size ==> (#[trigger] r.free_list@[i])@ == i,
    {
        let page_size = disk_manager.page_size();
        let mut pages: Vec<Page> = Vec::new();
        let mut i: usize = 0;
        while i < pool_size
            invariant
                i <= pool_size,
                pages@.len() == i,
                forall|f: int|
                    0 <= f < i ==> (#[trigger] pages@[f])@.page_id == INVALID_PAGE_ID
                        && pages@[f]@.pin_count == 0 && !pages@[f]@.is_dirty
                        && pages@[f]@.data.len() == disk_manager.spec_page_size(),
                forall|f: int, b: int|
                    0 <= f < i && 0 <= b < pages@[f]@.data.len() ==> (#[trigger] pages@[f]@.data[b])
                        == 0u8,
            decreases pool_size - i,
        {
            pages.push(Page::new(page_size));
            i = i + 1;
        }
        let mut free_list: Vec<FrameId> = Vec::new();
        let mut j: usize = 0;
        while j < pool_size
            invariant
                j <= pool_size,
                free_list@.len() == j,
                forall|k: int| 0 <= k < j ==> (#[trigger] free_list@[k])@ == k,
            decreases pool_size - j,
        {
            free_list.push(FrameId::new(j));
            j = j + 1;
        }
        let r = BufferPoolManagerImpl {
            pages,
            next_page_id: 0,
            page_table: table_new(),
            free_list,
            disk_manager,
        };
        proof {
            assert(table_entries(r.page_table).dom() =~= Set::<usize>::empty());
            assert forall|g: int|
                0 <= g < r.pages@.len() && (#[trigger] r.pages@[g])@.page_id
                    == INVALID_PAGE_ID implies r.in_free_list(g) by {
                assert(0 <= g < r.free_list@.len() && r.free_list@[g]@ == g);
            }
            assert forall|f: int| 0 <= f < pool_size implies (#[trigger] r.frames()[f]).data
                == Seq::new(disk_manager.spec_page_size(), |i: int| 0u8) by {
                assert(r.frames()[f].data =~= Seq::new(
                    disk_manager.spec_page_size(),
                    |i: int| 0u8,
                ));
            }
        }
        r
    }

    /// A fresh pool as [`Self::new`], but with the identifier counter seeded
    /// at `next_page_id` instead of zero. For a pool over a store that
    /// already holds pages — the store persists across restarts — seed the
    /// counter past them: `fetch_page` then accepts their identifiers, and
    /// `new_page` stays clear of them.
    pub fn new_with_next_page_id(pool_size: usize, disk_manager: D, next_page_id: usize) -> (r:
        Self)
        ensures
            r.inv(),
            r.frames().len() == pool_size,
            r.table().dom() == Set::<usize>::empty(),
            r.next_id() == next_page_id,
            r.store() == disk_manager.disk(),
            r.spec_page_size() == disk_manager.spec_page_size(),
            forall|f: int|
                0 <= f < pool_size ==> (#[trigger] r.frames()[f]).page_id == INVALID_PAGE_ID
                    && r.frames()[f].pin_count == 0 && !r.frames()[f].is_dirty,
            forall|f: int|
                0 <= f < pool_size ==> (#[trigger] r.frames()[f]).data == Seq::new(
                    disk_manager.spec_page_size(),
                    |i: int| 0u8,
                ),
            r.free_list@.len() == pool_size,
            forall|i: int| 0 <= i < pool_size ==> (#[trigger] r.free_list@[i])@ == i,
    {
        let mut r = Self::new(pool_size, disk_manager);
        r.next_page_id = next_page_id;
        r
    }

    /// Pops the longest-free frame, if any. A popped frame leaves the
    /// partition accounting one short until a page is installed in it.
    fn free_frame(&mut self) -> (r: Option<FrameId>)
        requires
            old(self).inv(),
        ensures
            final(self).inv_core(),
            final(self).pages == old(self).pages,
            final(self).page_table == old(self).page_table,
            final(self).next_page_id == old(self).next_page_id,
            final(self).disk_manager == old(self).disk_manager,
            r is None ==> *final(self) == *old(self) && old(self).free_list@.len() == 0,
            r matches Some(f) ==> {
                &&& f == old(self).free_list@[0]
                &&& f@ < old(self).pages@.len()
                &&& old(self).pages@[f@ as int]@.page_id == INVALID_PAGE_ID
                &&& !old(self).pages@[f@ as int]@.is_dirty
                &&& final(self).free_list@ == old(self).free_list@.remove(0)
                &&& forall|i: int|
                    0 <= i < final(self).free_list@.len()
                        ==> (#[trigger] final(self).free_list@[i])@ != f@
                &&& table_entries(final(self).page_table).dom().len()
                    + final(self).free_list@.len() + 1 == final(self).pages@.len()
                &&& forall|g: int|
                    0 <= g < final(self).pages@.len() && g != f@
                        && (#[trigger] final(self).pages@[g])@.page_id == INVALID_PAGE_ID
                        ==> final(self).in_free_list(g)
            },
    {
        if self.free_list.len() > 0 {
            let f = self.free_list.remove(0);
            proof {
                assert forall|i: int|
                    0 <= i < self.free_list@.len() implies (#[trigger] self.free_list@[i])@
                        != f@ by {
                    assert(self.free_list@[i] == old(self).free_list@[i + 1]);
                }
                assert forall|g: int|
                    0 <= g < self.pages@.len() && g != f@
                        && (#[trigger] self.pages@[g])@.page_id == INVALID_PAGE_ID implies self
                        .in_free_list(g) by {
                    let i = choose|i: int|
                        0 <= i < old(self).free_list@.len() && (#[trigger] old(
                            self,
                        ).free_list@[i])@ == g;
                    assert(i != 0);
                    assert(self.free_list@[i - 1]@ == g);
                }
            }
            Some(f)
        } else {
            None
        }
    }

    /// Hands out the next page identifier; identifiers are never reused.
    fn allocate_page(&mut self) -> (r: PageId)
        requires
            old(self).next_page_id < usize::MAX,
        ensures
            r@ == old(self).next_page_id,
            final(self).next_page_id == old(self).next_page_id + 1,
            final(self).pages == old(self).pages,
            final(self).page_table == old(self).page_table,
            final(self).free_list == old(self).free_list,
            final(self).disk_manager == old(self).disk_manager,
    {
        let id = self.next_page_id;
        self.next_page_id = self.next_page_id + 1;
        PageId::new(id)
    }

    /// Writes frame `f`'s buffer to the store at `page_id` and, on success,
    /// clears the slot's dirty flag. On failure the slot is untouched and
    /// nothing is promised of the store.
    fn flush_frame(&mut self, page_id: PageId, f: usize) -> (r: Result<(), DiskError>)
        requires
            old(self).inv_core(),
            f < old(self).pages@.len(),
            old(self).pages@[f as int]@.page_id == page_id@,
            page_id@ != INVALID_PAGE_ID,
        ensures
            final(self).inv_core(),
            final(self).page_table == old(self).page_table,
            final(self).next_page_id == old(self).next_page_id,
            final(self).free_list == old(self).free_list,
            final(self).pages@.len() == old(self).pages@.len(),
            final(self).spec_page_size() == old(self).spec_page_size(),
            r is Ok ==> {
                &&& final(self).pages@ == old(self).pages@.update(
                    f as int,
                    final(self).pages@[f as int],
                )
                &&& final(self).pages@[f as int]@ == (PageView {
                    is_dirty: false,
                    ..old(self).pages@[f as int]@
                })
                &&& store_updated(
                    old(self).store(),
                    final(self).store(),
                    page_id@,
                    old(self).pages@[f as int]@.data,
                )
            },
            r is Err ==> final(self).pages == old(self).pages,
    {
        match self.disk_manager.write_page(page_id, self.pages[f].data()) {
            Ok(()) => {
                let p = &mut self.pages[f];
                p.clear_dirty();
                proof {
                    assert(self.pages@ =~= old(self).pages@.update(
                        f as int,
                        self.pages@[f as int],
                    ));
                }
                Ok(())
            },
            Err(e) => Err(e),
        }
    }

    /// First-fit eviction: scans the slots in frame order and reclaims the
    /// first unpinned resident one, flushing its bytes first when dirty.
    /// `Ok(None)` reports that no slot qualifies. A reclaimed frame is handed
    /// to the caller, not to the free list: the caller installs a page in it
    /// at once.
    #[verifier::loop_isolation(false)]
    fn evict_page(&mut self) -> (r: Result<Option<FrameId>, DiskError>)
        requires
            old(self).inv(),
        ensures
            final(self).next_page_id == old(self).next_page_id,
            final(self).free_list == old(self).free_list,
            final(self).pages@.len() == old(self).pages@.len(),
            final(self).spec_page_size() == old(self).spec_page_size(),
            (forall|g: int|
                0 <= g < old(self).pages@.len() ==> !evictable((#[trigger] old(self).pages@[g])@))
                ==> r is Ok && r->Ok_0 is None,
            (exists|g: int| first_victim_clean(*old(self), g)) ==> r is Ok && r->Ok_0 is Some,
            match r {
                Ok(Some(f)) => {
                    let vid = old(self).pages@[f@ as int]@.page_id;
                    &&& final(self).inv_core()
                    &&& f@ < old(self).pages@.len()
                    &&& vid != INVALID_PAGE_ID
                    &&& old(self).pages@[f@ as int]@.pin_count == 0
                    &&& old(self).table().dom().contains(vid)
                    &&& old(self).table()[vid] == f@
                    &&& final(self).table() == old(self).table().remove(vid)
                    &&& final(self).pages@ == old(self).pages@.update(
                        f@ as int,
                        final(self).pages@[f@ as int],
                    )
                    &&& final(self).pages@[f@ as int]@ == (PageView {
                        page_id: INVALID_PAGE_ID,
                        is_dirty: false,
                        ..old(self).pages@[f@ as int]@
                    })
                    &&& if old(self).pages@[f@ as int]@.is_dirty {
                        store_updated(
                            old(self).store(),
                            final(self).store(),
                            vid,
                            old(self).pages@[f@ as int]@.data,
                        )
                    } else {
                        final(self).store() == old(self).store()
                    }
                    &&& table_entries(final(self).page_table).dom().len()
                        + final(self).free_list@.len() + 1 == final(self).pages@.len()
                    &&& forall|i: int|
                        0 <= i < final(self).free_list@.len()
                            ==> (#[trigger] final(self).free_list@[i])@ != f@
                    &&& forall|g: int|
                        0 <= g < final(self).pages@.len() && g != f@
                            && (#[trigger] final(self).pages@[g])@.page_id == INVALID_PAGE_ID
                            ==> final(self).in_free_list(g)
                },
                Ok(None) => *final(self) == *old(self) && (forall|g: int|
                    0 <= g < old(self).pages@.len() ==> !evictable(
                        (#[trigger] old(self).pages@[g])@,
                    )),
                Err(_) => final(self).pages == old(self).pages && final(self).page_table == old(
                    self,
                ).page_table && (exists|g: int|
                    0 <= g < old(self).pages@.len() && evictable(
                        (#[trigger] old(self).pages@[g])@,
                    )),
            },
    {
        let n = self.pages.len();
        let mut f: usize = 0;
        while f < n
            invariant
                f <= n,
                *self == *old(self),
                forall|g: int| 0 <= g < f ==> !evictable((#[trigger] self.pages@[g])@),
            decreases n - f,
        {
            if !self.pages[f].is_pinned() {
                if let Some(vid) = self.pages[f].page_id() {
                    if self.pages[f].is_dirty() {
                        match self.flush_frame(vid, f) {
                            Ok(()) => {},
                            Err(e) => {
                                proof {
                                    assert(evictable(old(self).pages@[f as int]@));
                                    if exists|g: int| first_victim_clean(*old(self), g) {
                                        let g = choose|g: int|
                                            first_victim_clean(*old(self), g);
                                        assert(!(g < f));
                                        assert(!(f < g));
                                        assert(false);
                                    }
                                }
                                return Err(e);
                            },
                        }
                    }
                    table_remove(&mut self.page_table, vid.as_usize());
                    let p = &mut self.pages[f];
                    p.deallocate_page();
                    proof {
                        assert(self.pages@ =~= old(self).pages@.update(
                            f as int,
                            self.pages@[f as int],
                        ));
                    }
                    return Ok(Some(FrameId::new(f)));
                }
            }
            f = f + 1;
        }
        Ok(None)
    }

    /// Exclusive access to the slot in frame `frame_id`: the sequential form
    /// of holding that slot's write lock. While the borrow lives the caller
    /// may rewrite the slot; the pool's invariant is then the caller's to
    /// keep, since every operation requires it.
    pub fn page_mut(&mut self, frame_id: FrameId) -> (r: &mut Page)
        requires
            frame_id@ < old(self).pages@.len(),
        ensures
            *r == old(self).pages@[frame_id@ as int],
            final(self).pages@ == old(self).pages@.update(frame_id@ as int, *final(r)),
            final(self).page_table == old(self).page_table,
            final(self).free_list == old(self).free_list,
            final(self).next_page_id == old(self).next_page_id,
            final(self).disk_manager == old(self).disk_manager,
    {
        &mut self.pages[frame_id.as_usize()]
    }
}

impl<D: DiskManager> BufferPoolManager for BufferPoolManagerImpl<D> {
    open spec fn frames(&self) -> Seq<PageView> {
        Seq::new(self.pages@.len(), |i: int| self.pages@[i]@)
    }

    open spec fn table(&self) -> Map<usize, usize> {
        table_entries(self.page_table)
    }

    open spec fn store(&self) -> Map<usize, Seq<u8>> {
        self.disk_manager.disk()
    }

    open spec fn next_id(&self) -> usize {
        self.next_page_id
    }

    open spec fn spec_page_size(&self) -> nat {
        self.disk_manager.spec_page_size()
    }

    open spec fn inv(&self) -> bool {
        self.inv_core() && self.frames_partitioned()
    }

    fn get_pool_size(&self) -> (r: usize) {
        self.pages.len()
    }

    fn get_pages(&self) -> (r: &Vec<Page>) {
        &self.pages
    }

    fn new_page(&mut self) -> (r: Result<Option<(PageId, FrameId)>, DiskError>) {
        let f = match self.free_frame() {
            Some(f) => f,
            None => {
                match self.evict_page() {
                    Ok(Some(f)) => f,
                    Ok(None) => {
                        proof {
                            lemma_full_pool_all_pinned(old(self));
                            lemma_no_free_frame_all_allocated(old(self));
                        }
                        return Ok(None);
                    },
                    Err(e) => {
                        proof {
                            lemma_no_free_frame_all_allocated(old(self));
                            let g = choose|g: int|
                                0 <= g < old(self).pages@.len() && evictable(
                                    (#[trigger] old(self).pages@[g])@,
                                );
                            assert(old(self).frames()[g].pin_count == 0);
                        }
                        return Err(e);
                    },
                }
            },
        };
        let ghost s1 = *self;
        let id = self.allocate_page();
        let p = &mut self.pages[f.as_usize()];
        p.allocate_page(id);
        table_insert(&mut self.page_table, id.as_usize(), f.as_usize());
        proof {
            lemma_install(old(self), s1, self, f@, id@);
            assert(old(self).frames()[f@ as int].page_id == INVALID_PAGE_ID || old(
                self,
            ).frames()[f@ as int].pin_count == 0);
        }
        Ok(Some((id, f)))
    }

    fn fetch_page(&mut self, page_id: PageId) -> (r: Result<Option<FrameId>, DiskError>) {
        let key = page_id.as_usize();
        match table_get(&self.page_table, key) {
            Some(f) => Ok(Some(FrameId::new(f))),
            None => {
                let mut buf = zero_page(self.disk_manager.page_size());
                match self.disk_manager.read_page(page_id, &mut buf) {
                    Err(e) => Err(e),
                    Ok(()) => {
                        let f = match self.free_frame() {
                            Some(f) => f,
                            None => {
                                match self.evict_page() {
                                    Ok(Some(f)) => f,
                                    Ok(None) => {
                                        proof {
                                            lemma_full_pool_all_pinned(old(self));
                                        }
                                        return Ok(None);
                                    },
                                    Err(e) => {
                                        return Err(e);
                                    },
                                }
                            },
                        };
                        let ghost s1 = *self;
                        let p = &mut self.pages[f.as_usize()];
                        p.write_data(&buf);
                        p.allocate_page(page_id);
                        table_insert(&mut self.page_table, key, f.as_usize());
                        proof {
                            lemma_install(old(self), s1, self, f@, page_id@);
                        }
                        Ok(Some(f))
                    },
                }
            },
        }
    }

    fn unpin_page(&mut self, page_id: PageId, is_dirty: bool) -> (r: bool) {
        match table_get(&self.page_table, page_id.as_usize()) {
            None => false,
            Some(f) => {
                if self.pages[f].is_pinned() {
                    let p = &mut self.pages[f];
                    p.unpin();
                    if is_dirty {
                        p.set_dirty();
                    }
                    proof {
                        assert(self.pages@ =~= old(self).pages@.update(
                            f as int,
                            self.pages@[f as int],
                        ));
                        assert(self.frames() =~= old(self).frames().update(
                            f as int,
                            self.pages@[f as int]@,
                        ));
                        assert forall|i: int|
                            0 <= i < self.free_list@.len() implies (#[trigger] self
                            .free_list@[i])@ != f by {}
                    }
                    true
                } else {
                    false
                }
            },
        }
    }

    fn flush_page(&mut self, page_id: PageId) -> (r: Result<bool, DiskError>) {
        match table_get(&self.page_table, page_id.as_usize()) {
            None => Ok(false),
            Some(f) => {
                match self.flush_frame(page_id, f) {
                    Ok(()) => {
                        proof {
                            assert(self.frames() =~= old(self).frames().update(
                                f as int,
                                (PageView {
                                    is_dirty: false,
                                    ..old(self).frames()[f as int]
                                }),
                            ));
                            assert forall|g: int|
                                0 <= g < self.pages@.len() && (#[trigger] self
                                .pages@[g])@.page_id == INVALID_PAGE_ID implies self
                                .in_free_list(g) by {
                                assert(old(self).pages@[g]@.page_id == INVALID_PAGE_ID);
                                let i = choose|i: int|
                                    0 <= i < old(self).free_list@.len() && (#[trigger] old(
                                        self,
                                    ).free_list@[i])@ == g;
                                assert(self.free_list@[i]@ == g);
                            }
                        }
                        Ok(true)
                    },
                    Err(e) => Err(e),
                }
            },
        }
    }

    #[verifier::loop_isolation(false)]
    fn flush_all_pages(&mut self) -> (r: Result<(), DiskError>) {
        let n = self.pages.len();
        let mut f: usize = 0;
        while f < n
            invariant
                f <= n,
                self.inv(),
                self.pages == old(self).pages,
                self.page_table == old(self).page_table,
                self.free_list == old(self).free_list,
                self.next_page_id == old(self).next_page_id,
                self.spec_page_size() == old(self).spec_page_size(),
                forall|g: int|
                    0 <= g < f && (#[trigger] self.pages@[g])@.page_id != INVALID_PAGE_ID
                        ==> self.store().dom().contains(self.pages@[g]@.page_id)
                            && self.store()[self.pages@[g]@.page_id] == self.pages@[g]@.data,
                forall|k: usize|
                    #[trigger] old(self).store().dom().contains(k) && !table_entries(
                        self.page_table,
                    ).dom().contains(k) ==> self.store().dom().contains(k) && self.store()[k]
                        == old(self).store()[k],
            decreases n - f,
        {
            if let Some(pid) = self.pages[f].page_id() {
                proof {
                    assert forall|g: int|
                        0 <= g < f && (#[trigger] self.pages@[g])@.page_id
                            != INVALID_PAGE_ID implies self.pages@[g]@.page_id != pid@ by {
                        let t = table_entries(self.page_table);
                        assert(t[self.pages@[g]@.page_id] == g);
                        assert(t[pid@] == f);
                    }
                }
                match self.disk_manager.write_page(pid, self.pages[f].data()) {
                    Ok(()) => {},
                    Err(e) => {
                        proof {
                            assert(old(self).frames()[f as int].page_id != INVALID_PAGE_ID);
                        }
                        return Err(e);
                    },
                }
            }
            f = f + 1;
        }
        Ok(())
    }

    fn delete_page(&mut self, page_id: PageId) -> (r: bool) {
        match table_get(&self.page_table, page_id.as_usize()) {
            None => true,
            Some(f) => {
                if self.pages[f].is_pinned() {
                    false
                } else {
                    table_remove(&mut self.page_table, page_id.as_usize());
                    let p = &mut self.pages[f];
                    p.deallocate_page();
                    proof {
                        assert forall|i: int|
                            0 <= i < self.free_list@.len() implies (#[trigger] self
                            .free_list@[i])@ != f by {
                            assert(old(self).pages@[self.free_list@[i]@ as int]@.page_id
                                == INVALID_PAGE_ID);
                        }
                    }
                    self.free_list.push(FrameId::new(f));
                    proof {
                        let t0 = table_entries(old(self).page_table);
                        let t2 = table_entries(self.page_table);
                        assert(t2.dom() =~= t0.dom().remove(page_id@));
                        assert(self.pages@ =~= old(self).pages@.update(
                            f as int,
                            self.pages@[f as int],
                        ));
                        assert(self.frames() =~= old(self).frames().update(
                            f as int,
                            (PageView {
                                page_id: INVALID_PAGE_ID,
                                is_dirty: false,
                                ..old(self).frames()[f as int]
                            }),
                        ));
                        assert forall|k: usize| #[trigger]
                            t2.dom().contains(k) implies t2[k] < self.pages@.len()
                            && self.pages@[t2[k] as int]@.page_id == k && k
                            < self.next_page_id by {
                            assert(t0.dom().contains(k));
                            assert(old(self).pages@[t0[k] as int]@.page_id == k);
                            assert(t0[k] != f);
                        }
                        assert forall|g: int|
                            0 <= g < self.pages@.len() && (#[trigger] self.pages@[g])@.page_id
                                != INVALID_PAGE_ID implies t2.dom().contains(
                            self.pages@[g]@.page_id,
                        ) && t2[self.pages@[g]@.page_id] == g by {
                            assert(g != f);
                            assert(old(self).pages@[g]@.page_id == self.pages@[g]@.page_id);
                            assert(self.pages@[g]@.page_id != page_id@);
                        }
                        assert forall|g: int|
                            0 <= g < self.pages@.len() && (#[trigger] self.pages@[g])@.page_id
                                == INVALID_PAGE_ID implies self.in_free_list(g) by {
                            if g == f as int {
                                let last = self.free_list@.len() - 1;
                                assert(self.free_list@[last]@ == g);
                            } else {
                                assert(old(self).pages@[g]@.page_id == INVALID_PAGE_ID);
                                let i = choose|i: int|
                                    0 <= i < old(self).free_list@.len() && (#[trigger] old(
                                        self,
                                    ).free_list@[i])@ == g;
                                assert(self.free_list@[i]@ == g);
                            }
                        }
                    }
                    true
                }
            },
        }
    }
}

/// However many pages a sequence of operations creates, fetches, unpins or
/// deletes, the pool never holds more resident pages than it has frames:
/// every operation preserves `inv()`, and under `inv()` the resident pages
/// and the free frames together account for the pool exactly.
pub proof fn lemma_resident_count_bounded<D: DiskManager>(pool: &BufferPoolManagerImpl<D>)
    requires
        pool.inv(),
    ensures
        pool.table().dom().len() <= pool.frames().len(),
{
}

/// A slot whose page is pinned is never an eviction candidate; in particular
/// the slot `new_page` just returned, pinned at 1, cannot be reclaimed until
/// it is unpinned.
pub proof fn lemma_pinned_not_evictable(pv: PageView)
    requires
        pv.pin_count > 0,
    ensures
        !evictable(pv),
{
}

/// Round trip: writing `bytes` into the resident page `page_id`, releasing
/// the single pin on it as dirty, flushing it, deleting it from the pool and
/// fetching it again yields exactly `bytes` — by then read back from the
/// backing store. A store failure is propagated as `Err`; every `Ok` result
/// carries the original bytes.
pub fn write_flush_refetch_round_trip<D: DiskManager>(
    pool: &mut BufferPoolManagerImpl<D>,
    page_id: PageId,
    bytes: &Vec<u8>,
) -> (r: Result<Vec<u8>, DiskError>)
    requires
        old(pool).inv(),
        old(pool).table().dom().contains(page_id@),
        old(pool).frames()[old(pool).table()[page_id@] as int].pin_count == 1,
        bytes@.len() == old(pool).spec_page_size(),
    ensures
        final(pool).inv(),
        r matches Ok(v) ==> v@ == bytes@,
{
    let f = match pool.fetch_page(page_id) {
        Ok(Some(f)) => f,
        _ => {
            proof {
                assert(false);
            }
            return Err(DiskError::Io);
        },
    };
    let p = pool.page_mut(f);
    p.write_data(bytes);
    proof {
        assert(pool.pages@ =~= old(pool).pages@.update(f@ as int, pool.pages@[f@ as int]));
        assert forall|i: int|
            0 <= i < pool.free_list@.len() implies (#[trigger] pool.free_list@[i])@ != f@ by {
            assert(old(pool).pages@[pool.free_list@[i]@ as int]@.page_id == INVALID_PAGE_ID);
        }
        assert forall|g: int|
            0 <= g < pool.pages@.len() && (#[trigger] pool.pages@[g])@.page_id
                == INVALID_PAGE_ID implies pool.in_free_list(g) by {
            assert(old(pool).pages@[g]@.page_id == INVALID_PAGE_ID);
            let i = choose|i: int|
                0 <= i < old(pool).free_list@.len() && (#[trigger] old(pool).free_list@[i])@
                    == g;
            assert(pool.free_list@[i]@ == g);
        }
        assert(pool.inv());
    }
    pool.unpin_page(page_id, true);
    match pool.flush_page(page_id) {
        Ok(_) => {},
        Err(e) => {
            return Err(e);
        },
    }
    pool.delete_page(page_id);
    match pool.fetch_page(page_id) {
        Ok(Some(f2)) => {
            let out = copy_bytes(pool.get_pages()[f2.as_usize()].data());
            Ok(out)
        },
        Ok(None) => {
            proof {
                assert(false);
            }
            Err(DiskError::Io)
        },
        Err(e) => Err(e),
    }
}

} // verus!
