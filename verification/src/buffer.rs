//! The buffer pool and its manager.
//!
//! A fixed array of frames caches pages of the heap file. Frames are
//! recycled in place by clock-sweep (second-chance) eviction: each frame
//! carries a recency counter that fetches bump and the sweep lazily
//! decrements, and the first frame found with a zero counter is the victim.
//! A frame also carries a pin count — the number of outstanding client
//! handles to its buffer — and may only be recycled while that count is
//! zero. A pin is only ever taken together with a recency bump, so the
//! recency counter dominates the pin count and a frame whose counter reached
//! zero is provably unpinned; this is what makes recycling the victim safe.
//!
//! The manager on top correlates the frames with disk I/O: on a miss it
//! evicts a victim, writes the victim's buffer back if it is dirty, and
//! reads or creates the requested page in its place. The page table — which
//! page id sits in which frame — is carried by the frames themselves: each
//! buffer names its page id, well-formedness keeps valid ids distinct, and a
//! page is resident exactly when some frame holds its id.

use crate::disk::{
    lemma_write_preserves_other_pages, lemma_write_read_round_trip, page_at, page_offset,
    page_within, with_page, DiskManager, IoError, PageId, INVALID_PAGE_ID, PAGE_SIZE,
};
use vstd::arithmetic::div_mod::{lemma_mod_self_0, lemma_small_mod};
use vstd::prelude::*;

verus! {

/// The two failures a caller can see from normal operation.
#[derive(Debug, Clone, Copy, PartialEq, Eq, Structural)]
pub enum Error {
    /// The storage layer failed — here, a read past the end of the heap file.
    Io(IoError),
    /// Every frame of the pool is pinned; nothing can be evicted.
    NoFreeBuffer,
}

/// Index of a frame within the pool's fixed array; a purely internal
/// addressing handle, never a page id.
#[derive(Debug, Clone, Copy, PartialEq, Eq, Hash, Structural)]
pub struct BufferId(usize);

impl BufferId {
    /// The frame index this id addresses.
    pub closed spec fn index(self) -> int {
        self.0 as int
    }
}

/// All zeroes: the content of a page that was never written.
pub open spec fn zero_page() -> Seq<u8> {
    Seq::new(PAGE_SIZE as nat, |j: int| 0u8)
}

fn make_zero_page() -> (r: Vec<u8>)
    ensures
        r@ == zero_page(),
{
    let mut page: Vec<u8> = Vec::new();
    let mut i: usize = 0;
    while i < PAGE_SIZE
        invariant
            i == page.len(),
            0 <= i <= PAGE_SIZE,
            forall|j: int| 0 <= j < i ==> page@[j] == 0u8,
        decreases PAGE_SIZE - i,
    {
        page.push(0u8);
        i += 1;
    }
    proof {
        assert(page@ =~= zero_page());
    }
    page
}

/// Copies page-sized bytes into a fresh vector.
fn copy_page(data: &Vec<u8>) -> (r: Vec<u8>)
    ensures
        r@ == data@,
{
    let r = data.clone();
    proof {
        assert(r@ =~= data@);
    }
    r
}

/// The content of one resident page: its id, its 4096 bytes, and whether
/// those bytes differ from the page's on-disk image.
#[derive(Debug)]
pub struct Buffer {
    pub page_id: PageId,
    pub page: Vec<u8>,
    pub is_dirty: bool,
}

impl Buffer {
    /// The bytes always fill exactly one page, and only a real page is ever
    /// marked dirty.
    pub open spec fn wf(self) -> bool {
        &&& self.page.len() == PAGE_SIZE
        &&& (self.is_dirty ==> self.page_id.is_valid())
    }
}

impl Default for Buffer {
    /// A buffer starts holding no page: invalid id, zero-filled, clean.
    fn default() -> (r: Self)
        ensures
            r.wf(),
            r.page_id.0 == INVALID_PAGE_ID,
            r.page@ == zero_page(),
            !r.is_dirty,
    {
        Buffer { page_id: PageId(INVALID_PAGE_ID), page: make_zero_page(), is_dirty: false }
    }
}

/// One fixed slot of the pool, recycled over its lifetime to hold different
/// pages. `used_count` is the clock-sweep recency counter; `pin_count` is
/// the number of outstanding client handles to the buffer.
#[derive(Debug)]
pub struct Frame {
    used_count: u64,
    pin_count: u64,
    buffer: Buffer,
}

impl Frame {
    /// The clock-sweep recency counter.
    pub closed spec fn used(self) -> u64 {
        self.used_count
    }

    /// How many client handles to this frame's buffer are outstanding; the
    /// frame is pinned — unevictable — while this is nonzero.
    pub closed spec fn pins(self) -> u64 {
        self.pin_count
    }

    /// The buffer this frame currently holds.
    pub closed spec fn buf(self) -> Buffer {
        self.buffer
    }

    /// A pin is only ever taken together with a recency bump and recency is
    /// only decremented on unpinned frames, so the recency counter dominates
    /// the pin count: a frame whose counter is zero is never pinned.
    pub open spec fn wf(self) -> bool {
        &&& self.buf().wf()
        &&& self.pins() <= self.used()
    }
}

impl Default for Frame {
    /// A fresh frame: never touched, never pinned, holding no page — the
    /// first candidate the sweep will return.
    fn default() -> (r: Self)
        ensures
            r.wf(),
            r.used() == 0,
            r.pins() == 0,
            r.buf().page_id.0 == INVALID_PAGE_ID,
            r.buf().page@ == zero_page(),
            !r.buf().is_dirty,
    {
        Frame { used_count: 0, pin_count: 0, buffer: Buffer::default() }
    }
}

/// Mutable access to one frame of the pool's array.
fn frame_mut(frames: &mut Vec<Frame>, i: usize) -> (f: &mut Frame)
    requires
        i < old(frames).len(),
    ensures
        *f == old(frames)@[i as int],
        final(frames)@ == old(frames)@.update(i as int, *final(f)),
{
    &mut frames[i]
}

/// Total recency over a run of frames: the clock sweep's termination
/// measure — every second chance the sweep grants decreases it.
spec fn sum_used(frames: Seq<Frame>) -> int
    decreases frames.len(),
{
    if frames.len() == 0 {
        0
    } else {
        frames[0].used() + sum_used(frames.drop_first())
    }
}

proof fn lemma_sum_used_nonneg(frames: Seq<Frame>)
    ensures
        sum_used(frames) >= 0,
    decreases frames.len(),
{
    if frames.len() > 0 {
        lemma_sum_used_nonneg(frames.drop_first());
    }
}

proof fn lemma_sum_used_update(frames: Seq<Frame>, i: int, f: Frame)
    requires
        0 <= i < frames.len(),
    ensures
        sum_used(frames.update(i, f)) == sum_used(frames) - frames[i].used() + f.used(),
    decreases frames.len(),
{
    if i == 0 {
        assert(frames.update(0, f).drop_first() =~= frames.drop_first());
    } else {
        assert(frames.update(i, f).drop_first() =~= frames.drop_first().update(i - 1, f));
        lemma_sum_used_update(frames.drop_first(), i - 1, f);
    }
}

/// The frame index `steps` places behind `h` on the circular sweep of `n`
/// frames.
spec fn wrap_back(h: int, steps: int, n: int) -> int {
    if h - steps >= 0 {
        h - steps
    } else {
        h - steps + n
    }
}

/// The fixed array of frames plus the clock hand.
pub struct BufferPool {
    buffers: Vec<Frame>,
    next_victim_id: BufferId,
}

impl BufferPool {
    /// The frames of the pool.
    pub closed spec fn frames(self) -> Seq<Frame> {
        self.buffers@
    }

    /// The clock hand: where the next sweep starts.
    pub closed spec fn hand(self) -> int {
        self.next_victim_id.index()
    }

    /// At least one frame, the hand in range, every frame well formed.
    pub open spec fn wf(self) -> bool {
        &&& self.frames().len() >= 1
        &&& 0 <= self.hand() < self.frames().len()
        &&& (forall|i: int| 0 <= i < self.frames().len() ==> (#[trigger] self.frames()[i]).wf())
    }

    /// Builds a pool of `pool_size` fresh frames with the hand on frame 0.
    /// All allocation happens here, once; afterwards frames are only ever
    /// recycled in place.
    pub fn new(pool_size: usize) -> (r: BufferPool)
        requires
            pool_size >= 1,
        ensures
            r.wf(),
            r.frames().len() == pool_size,
            r.hand() == 0,
            (forall|i: int|
                0 <= i < pool_size ==> {
                    let f = #[trigger] r.frames()[i];
                    f.used() == 0 && f.pins() == 0 && f.buf().page_id.0 == INVALID_PAGE_ID
                        && !f.buf().is_dirty && f.buf().page@ == zero_page()
                }),
    {
        let mut buffers: Vec<Frame> = Vec::new();
        let mut k: usize = 0;
        while k < pool_size
            invariant
                k == buffers.len(),
                0 <= k <= pool_size,
                forall|i: int|
                    0 <= i < k ==> {
                        let f = #[trigger] buffers@[i];
                        f.wf() && f.used() == 0 && f.pins() == 0 && f.buf().page_id.0
                            == INVALID_PAGE_ID && !f.buf().is_dirty && f.buf().page@ == zero_page()
                    },
            decreases pool_size - k,
        {
            buffers.push(Frame::default());
            k += 1;
        }
        BufferPool { buffers, next_victim_id: BufferId(0) }
    }

    /// How many frames the pool has.
    pub fn size(&self) -> (r: usize)
        ensures
            r == self.frames().len(),
    {
        self.buffers.len()
    }

    /// The frame index after `buffer_id`, wrapping back to the first frame
    /// past the last one.
    pub fn increment_id(&self, buffer_id: BufferId) -> (r: BufferId)
        requires
            self.frames().len() >= 1,
            0 <= buffer_id.index() < self.frames().len(),
        ensures
            r.index() == if buffer_id.index() + 1 == self.frames().len() {
                0int
            } else {
                buffer_id.index() + 1
            },
    {
        let n: usize = self.buffers.len();
        let next: usize = (buffer_id.0 + 1) % n;
        proof {
            if buffer_id.0 + 1 == n {
                lemma_mod_self_0(n as int);
            } else {
                lemma_small_mod((buffer_id.0 + 1) as nat, n as nat);
            }
        }
        BufferId(next)
    }

    /// Clock-sweep victim selection, run on every cache miss. Walks the
    /// frames from the hand: a frame whose recency counter is zero is the
    /// victim (the hand is left on it); an unpinned frame gets a second
    /// chance, its counter decremented; a pinned frame is passed over.
    /// Seeing `pool_size` pinned frames in a row proves that every frame is
    /// pinned, and the sweep reports that no victim exists. Buffers and pin
    /// counts are never touched here.
    pub fn evict(&mut self) -> (r: Option<BufferId>)
        requires
            old(self).wf(),
        ensures
            final(self).wf(),
            final(self).frames().len() == old(self).frames().len(),
            (forall|i: int|
                0 <= i < old(self).frames().len() ==> {
                    let f0 = old(self).frames()[i];
                    let f1 = #[trigger] final(self).frames()[i];
                    f1.buf() == f0.buf() && f1.pins() == f0.pins() && f1.used() <= f0.used()
                }),
            match r {
                Some(bid) => {
                    &&& bid.index() == final(self).hand()
                    &&& 0 <= bid.index() < final(self).frames().len()
                    &&& final(self).frames()[bid.index()].used() == 0
                    &&& final(self).frames()[bid.index()].pins() == 0
                },
                None => {
                    &&& (forall|i: int|
                        0 <= i < old(self).frames().len() ==> (#[trigger] old(
                            self,
                        ).frames()[i]).pins() > 0)
                    &&& final(self).frames() == old(self).frames()
                },
            },
    {
        let pool_size: usize = self.buffers.len();
        let mut consecutive_pinned: usize = 0;
        proof {
            lemma_sum_used_nonneg(self.frames());
        }
        loop
            invariant
                self.wf(),
                pool_size == self.frames().len(),
                pool_size == old(self).frames().len(),
                0 <= consecutive_pinned < pool_size,
                sum_used(self.frames()) >= 0,
                (forall|i: int|
                    0 <= i < pool_size ==> {
                        let f0 = old(self).frames()[i];
                        let f1 = #[trigger] self.frames()[i];
                        f1.buf() == f0.buf() && f1.pins() == f0.pins() && f1.used() <= f0.used()
                    }),
                (forall|i: int|
                    0 <= i < pool_size && (#[trigger] self.frames()[i]).used() < old(
                        self,
                    ).frames()[i].used() ==> self.frames()[i].pins() == 0),
                (forall|j: int|
                    0 <= j < consecutive_pinned ==> (#[trigger] self.frames()[wrap_back(
                        self.hand(),
                        j + 1,
                        pool_size as int,
                    )]).pins() > 0),
            decreases sum_used(self.frames()), pool_size - consecutive_pinned,
        {
            let idx: usize = self.next_victim_id.0;
            let used: u64 = self.buffers[idx].used_count;
            if used == 0 {
                return Some(self.next_victim_id);
            }
            if self.buffers[idx].pin_count == 0 {
                let ghost before = self.buffers@;
                let f = frame_mut(&mut self.buffers, idx);
                f.used_count = f.used_count - 1;
                proof {
                    lemma_sum_used_update(before, idx as int, self.buffers@[idx as int]);
                    lemma_sum_used_nonneg(self.buffers@);
                }
                consecutive_pinned = 0;
            } else {
                consecutive_pinned += 1;
                if consecutive_pinned >= pool_size {
                    proof {
                        let n = pool_size as int;
                        let h = self.hand();
                        assert forall|i: int| 0 <= i < n implies (#[trigger] self.frames()[i]).pins()
                            > 0 by {
                            if i == h {
                                assert(self.frames()[h].pins() > 0);
                            } else {
                                let steps = if h - i >= 1 {
                                    h - i
                                } else {
                                    h - i + n
                                };
                                assert(1 <= steps <= n - 1);
                                assert(wrap_back(h, (steps - 1) + 1, n) == i);
                                assert(self.frames()[wrap_back(h, (steps - 1) + 1, n)].pins() > 0);
                            }
                        }
                        assert forall|i: int| 0 <= i < n implies self.frames()[i] == old(
                            self,
                        ).frames()[i] by {
                            assert(self.frames()[i].pins() > 0);
                            assert(self.frames()[i].used() == old(self).frames()[i].used());
                        }
                        assert(self.frames() =~= old(self).frames());
                    }
                    return None;
                }
            }
            self.next_victim_id = self.increment_id(self.next_victim_id);
            proof {
                if consecutive_pinned > 0 {
                    let n = pool_size as int;
                    let h1 = self.hand();
                    assert forall|j: int|
                        0 <= j < consecutive_pinned implies (#[trigger] self.frames()[wrap_back(
                        h1,
                        j + 1,
                        n,
                    )]).pins() > 0 by {
                        if j == 0 {
                            assert(wrap_back(h1, 1, n) == idx as int);
                        } else {
                            assert(wrap_back(h1, j + 1, n) == wrap_back(idx as int, j, n));
                            assert(self.frames()[wrap_back(idx as int, (j - 1) + 1, n)].pins() > 0);
                        }
                    }
                }
            }
        }
    }
}

/// A recency counter after one more touch: incremented, saturating far
/// beyond any count the sweep could ever decrement away.
pub open spec fn bump64(x: u64) -> u64 {
    if x < u64::MAX {
        (x + 1) as u64
    } else {
        x
    }
}

/// A client's pinned reference to one resident page. While any handle to a
/// page is outstanding, the frame holding it is never evicted or recycled;
/// handing the handle back through `unpin` releases the pin.
#[derive(Debug)]
pub struct PageHandle {
    buffer_id: BufferId,
    page_id: PageId,
}

impl PageHandle {
    /// The index of the frame this handle pins.
    pub closed spec fn frame_index(self) -> int {
        self.buffer_id.index()
    }

    /// The page number this handle refers to.
    pub closed spec fn id(self) -> u64 {
        self.page_id.0
    }

    /// The id of the pinned page.
    pub fn page_id(&self) -> (r: PageId)
        ensures
            r.0 == self.id(),
    {
        self.page_id
    }
}

/// The buffer pool manager: the one component that correlates resident
/// frames with the disk. All page lookups, creation and flushing go through
/// it; it owns the eviction and write-back protocol.
pub struct BufferPoolManager {
    disk_manager: DiskManager,
    buffer_pool: BufferPool,
}

impl BufferPoolManager {
    /// The pool of frames.
    pub closed spec fn pool(self) -> BufferPool {
        self.buffer_pool
    }

    /// The disk manager underneath.
    pub closed spec fn disk(self) -> DiskManager {
        self.disk_manager
    }

    /// The frames of the pool.
    pub open spec fn frames(self) -> Seq<Frame> {
        self.pool().frames()
    }

    /// How many frames the pool has.
    pub open spec fn pool_size(self) -> int {
        self.frames().len() as int
    }

    /// Frame `i` currently holds the page `pid`. This relation is the page
    /// table: each buffer names its page id, and well-formedness keeps the
    /// valid ids distinct across frames.
    pub open spec fn frame_holds(self, i: int, pid: u64) -> bool {
        &&& 0 <= i < self.pool_size()
        &&& pid != INVALID_PAGE_ID
        &&& self.frames()[i].buf().page_id.0 == pid
    }

    /// The page `pid` is resident: some frame holds it.
    pub open spec fn resident(self, pid: u64) -> bool {
        exists|i: int| self.frame_holds(i, pid)
    }

    /// The frame holding the resident page `pid`.
    pub open spec fn frame_of(self, pid: u64) -> int {
        choose|i: int| self.frame_holds(i, pid)
    }

    /// The handle addresses a frame that holds its page and is pinned.
    pub open spec fn valid_handle(self, h: PageHandle) -> bool {
        &&& self.frame_holds(h.frame_index(), h.id())
        &&& self.frames()[h.frame_index()].pins() > 0
    }

    /// Well-formedness of the whole manager:
    /// - the pool is well formed;
    /// - a resident page appears in at most one frame;
    /// - every resident page is addressable (its byte offset fits the
    ///   machine) and its id was handed out by the allocator;
    /// - the file never extends past the page the allocator will hand out
    ///   next, so fresh ids never collide with pages already on the file.
    pub open spec fn wf(self) -> bool {
        &&& self.pool().wf()
        &&& (forall|i: int, j: int|
            0 <= i < j < self.pool_size() && (#[trigger] self.frames()[i]).buf().page_id.is_valid()
                && (#[trigger] self.frames()[j]).buf().page_id.is_valid()
                ==> self.frames()[i].buf().page_id.0 != self.frames()[j].buf().page_id.0)
        &&& (forall|i: int|
            0 <= i < self.pool_size() && (#[trigger] self.frames()[i]).buf().page_id.is_valid()
                ==> page_offset(self.frames()[i].buf().page_id.0) + PAGE_SIZE as int <= usize::MAX
                && self.frames()[i].buf().page_id.0 < self.disk().next_id())
        &&& self.disk().image().len() < page_offset(self.disk().next_id()) + PAGE_SIZE as int
    }

    /// The disk image after frame `v` is vacated: the victim's page written
    /// back where its buffer was dirty, the image untouched where it was
    /// clean.
    pub open spec fn image_after_writeback(self, v: int) -> Seq<u8> {
        if self.frames()[v].buf().is_dirty {
            with_page(
                self.disk().image(),
                self.frames()[v].buf().page_id.0,
                self.frames()[v].buf().page@,
            )
        } else {
            self.disk().image()
        }
    }

    /// Frame `v` of `pre` was recycled to hold page `pid`: in `post` it is
    /// freshly touched and pinned exactly once, its old content was written
    /// back to disk if dirty, and every other frame keeps its buffer and
    /// pins, with at most some recency decay from the sweep.
    pub open spec fn recycled_frame(
        pre: BufferPoolManager,
        post: BufferPoolManager,
        pid: u64,
        v: int,
    ) -> bool {
        &&& 0 <= v < pre.pool_size()
        &&& pre.frames()[v].pins() == 0
        &&& post.frames()[v].buf().page_id.0 == pid
        &&& post.frames()[v].used() == 1
        &&& post.frames()[v].pins() == 1
        &&& post.disk().image() == pre.image_after_writeback(v)
        &&& (forall|k: int|
            0 <= k < pre.pool_size() && k != v ==> {
                let f0 = pre.frames()[k];
                let f1 = #[trigger] post.frames()[k];
                f1.buf() == f0.buf() && f1.pins() == f0.pins() && f1.used() <= f0.used()
            })
    }

    /// Builds a manager over a disk manager and a pool whose frames hold no
    /// pages yet (as `BufferPool::new` leaves them).
    pub fn new(disk_manager: DiskManager, buffer_pool: BufferPool) -> (r: BufferPoolManager)
        requires
            buffer_pool.wf(),
            (forall|i: int|
                0 <= i < buffer_pool.frames().len()
                    ==> !(#[trigger] buffer_pool.frames()[i]).buf().page_id.is_valid()),
            disk_manager.image().len() < page_offset(disk_manager.next_id()) + PAGE_SIZE as int,
        ensures
            r.wf(),
            r.disk() == disk_manager,
            r.pool() == buffer_pool,
    {
        BufferPoolManager { disk_manager, buffer_pool }
    }

    /// Dissolves the manager, handing back the disk manager (so the
    /// embedding program can persist or re-open its heap file) and the pool.
    pub fn into_parts(self) -> (r: (DiskManager, BufferPool))
        ensures
            r.0 == self.disk(),
            r.1 == self.pool(),
    {
        (self.disk_manager, self.buffer_pool)
    }

    /// Scans the frames for the one holding `page_id`.
    fn lookup(&self, page_id: PageId) -> (r: Option<usize>)
        requires
            self.wf(),
            page_id.is_valid(),
        ensures
            match r {
                Some(i) => self.frame_holds(i as int, page_id.0) && i as int == self.frame_of(
                    page_id.0,
                ),
                None => !self.resident(page_id.0),
            },
    {
        let n: usize = self.buffer_pool.buffers.len();
        let mut i: usize = 0;
        while i < n
            invariant
                self.wf(),
                page_id.is_valid(),
                n == self.pool_size(),
                0 <= i <= n,
                forall|k: int| 0 <= k < i ==> !self.frame_holds(k, page_id.0),
            decreases n - i,
        {
            if self.buffer_pool.buffers[i].buffer.page_id.0 == page_id.0 {
                proof {
                    lemma_frame_of_is(*self, i as int, page_id.0);
                }
                return Some(i);
            }
            i += 1;
        }
        None
    }

    /// Returns a pinned handle to the page `page_id`.
    ///
    /// On a hit the frame holding the page gets one recency bump and one
    /// more pin, and nothing else changes. On a miss a victim is evicted:
    /// its buffer is written back if dirty, the requested page's bytes are
    /// read from disk into the frame, and the frame comes back freshly
    /// touched, clean, and pinned once. Frames that are pinned keep their
    /// buffers untouched through all of this. The call fails with `Io` when
    /// the page lies beyond the end of the heap file (before any state
    /// changes), and with `NoFreeBuffer` when the page is absent and every
    /// frame is pinned; in both failures frames and disk are left as they
    /// were.
    pub fn fetch_page(&mut self, page_id: PageId) -> (r: Result<PageHandle, Error>)
        requires
            old(self).wf(),
            page_id.is_valid(),
        ensures
            final(self).wf(),
            final(self).pool_size() == old(self).pool_size(),
            final(self).disk().next_id() == old(self).disk().next_id(),
            (forall|i: int|
                0 <= i < old(self).pool_size() && (#[trigger] old(self).frames()[i]).pins() > 0
                    ==> final(self).frames()[i].buf() == old(self).frames()[i].buf()),
            match r {
                Ok(h) => {
                    &&& h.id() == page_id.0
                    &&& final(self).valid_handle(h)
                    &&& (old(self).resident(page_id.0) ==> {
                        &&& h.frame_index() == old(self).frame_of(page_id.0)
                        &&& final(self).disk() == old(self).disk()
                        &&& final(self).pool().hand() == old(self).pool().hand()
                        &&& final(self).frames()[h.frame_index()].buf() == old(
                            self,
                        ).frames()[h.frame_index()].buf()
                        &&& final(self).frames()[h.frame_index()].used() == bump64(
                            old(self).frames()[h.frame_index()].used(),
                        )
                        &&& final(self).frames()[h.frame_index()].pins() == bump64(
                            old(self).frames()[h.frame_index()].pins(),
                        )
                        &&& (forall|k: int|
                            0 <= k < old(self).pool_size() && k != h.frame_index()
                                ==> #[trigger] final(self).frames()[k] == old(self).frames()[k])
                    })
                    &&& (!old(self).resident(page_id.0) ==> {
                        &&& page_within(old(self).disk().image(), page_id.0)
                        &&& BufferPoolManager::recycled_frame(
                            *old(self),
                            *final(self),
                            page_id.0,
                            h.frame_index(),
                        )
                        &&& final(self).frames()[h.frame_index()].buf().page@ == page_at(
                            old(self).image_after_writeback(h.frame_index()),
                            page_id.0,
                        )
                        &&& !final(self).frames()[h.frame_index()].buf().is_dirty
                    })
                },
                Err(e) => {
                    &&& !old(self).resident(page_id.0)
                    &&& final(self).frames() == old(self).frames()
                    &&& final(self).disk() == old(self).disk()
                    &&& (e matches Error::Io(_) ==> !page_within(
                        old(self).disk().image(),
                        page_id.0,
                    ))
                    &&& (e == Error::NoFreeBuffer ==> page_within(old(self).disk().image(), page_id.0)
                        && (forall|i: int|
                        0 <= i < old(self).pool_size() ==> (#[trigger] old(
                            self,
                        ).frames()[i]).pins() > 0))
                },
            },
    {
        let hit = self.lookup(page_id);
        match hit {
            Some(i) => {
                proof {
                    lemma_frame_of_is(*old(self), i as int, page_id.0);
                }
                let f = frame_mut(&mut self.buffer_pool.buffers, i);
                if f.used_count < u64::MAX {
                    f.used_count = f.used_count + 1;
                }
                if f.pin_count < u64::MAX {
                    f.pin_count = f.pin_count + 1;
                }
                Ok(PageHandle { buffer_id: BufferId(i), page_id })
            },
            None => {
                if !self.disk_manager.page_in_extent(page_id) {
                    return Err(Error::Io(IoError));
                }
                let picked = self.buffer_pool.evict();
                let bid = match picked {
                    None => {
                        return Err(Error::NoFreeBuffer);
                    },
                    Some(b) => b,
                };
                let ghost evicted = *self;
                let v: usize = bid.0;
                let old_pid: PageId = self.buffer_pool.buffers[v].buffer.page_id;
                if self.buffer_pool.buffers[v].buffer.is_dirty {
                    let wrote = self.disk_manager.write_page_data(
                        old_pid,
                        &self.buffer_pool.buffers[v].buffer.page,
                    );
                    match wrote {
                        Ok(()) => {},
                        Err(e) => {
                            return Err(Error::Io(e));
                        },
                    }
                }
                let mut page = make_zero_page();
                let got = self.disk_manager.read_page_data(page_id, &mut page);
                match got {
                    Ok(()) => {},
                    Err(e) => {
                        return Err(Error::Io(e));
                    },
                }
                let f = frame_mut(&mut self.buffer_pool.buffers, v);
                f.buffer.page_id = page_id;
                f.buffer.page = page;
                f.buffer.is_dirty = false;
                f.used_count = 1;
                f.pin_count = 1;
                proof {
                    assert(page_offset(page_id.0) + PAGE_SIZE as int <= old(
                        self,
                    ).disk().image().len());
                    assert(page_id.0 as int * (PAGE_SIZE as int) < old(self).disk().next_id() as int
                        * (PAGE_SIZE as int));
                    assert(page_id.0 < old(self).disk().next_id());
                    self.lemma_after_recycle(*old(self), evicted, page_id.0, v as int);
                }
                Ok(PageHandle { buffer_id: bid, page_id })
            },
        }
    }

    /// Allocates a brand-new page and returns a pinned handle to it.
    ///
    /// A victim frame is chosen and written back exactly as on a fetch miss,
    /// but instead of reading bytes from disk the frame is reset to the
    /// all-zero page under the freshly allocated id, marked dirty — a new
    /// page has no disk image yet, so it must be written back before its
    /// frame can be reused — and comes back freshly touched and pinned once.
    /// Ids are handed out strictly increasingly; allocation itself never
    /// fails, and within this model the write-back cannot either, so the
    /// only failure is `NoFreeBuffer` when every frame is pinned, with
    /// frames and disk left as they were.
    pub fn create_page(&mut self) -> (r: Result<PageHandle, Error>)
        requires
            old(self).wf(),
            old(self).disk().next_id() < INVALID_PAGE_ID,
            page_offset(old(self).disk().next_id()) + PAGE_SIZE as int <= usize::MAX,
        ensures
            final(self).wf(),
            final(self).pool_size() == old(self).pool_size(),
            (forall|i: int|
                0 <= i < old(self).pool_size() && (#[trigger] old(self).frames()[i]).pins() > 0
                    ==> final(self).frames()[i].buf() == old(self).frames()[i].buf()),
            match r {
                Ok(h) => {
                    &&& h.id() == old(self).disk().next_id()
                    &&& final(self).disk().next_id() == old(self).disk().next_id() + 1
                    &&& final(self).valid_handle(h)
                    &&& BufferPoolManager::recycled_frame(
                        *old(self),
                        *final(self),
                        h.id(),
                        h.frame_index(),
                    )
                    &&& final(self).frames()[h.frame_index()].buf().page@ == zero_page()
                    &&& final(self).frames()[h.frame_index()].buf().is_dirty
                },
                Err(e) => {
                    &&& e == Error::NoFreeBuffer
                    &&& final(self).frames() == old(self).frames()
                    &&& final(self).disk() == old(self).disk()
                    &&& (forall|i: int|
                        0 <= i < old(self).pool_size() ==> (#[trigger] old(
                            self,
                        ).frames()[i]).pins() > 0)
                },
            },
    {
        let picked = self.buffer_pool.evict();
        let bid = match picked {
            None => {
                return Err(Error::NoFreeBuffer);
            },
            Some(b) => b,
        };
        let ghost evicted = *self;
        let v: usize = bid.0;
        let old_pid: PageId = self.buffer_pool.buffers[v].buffer.page_id;
        if self.buffer_pool.buffers[v].buffer.is_dirty {
            let wrote = self.disk_manager.write_page_data(
                old_pid,
                &self.buffer_pool.buffers[v].buffer.page,
            );
            match wrote {
                Ok(()) => {},
                Err(e) => {
                    return Err(Error::Io(e));
                },
            }
        }
        let page_id: PageId = self.disk_manager.allocate_page();
        let page = make_zero_page();
        let f = frame_mut(&mut self.buffer_pool.buffers, v);
        f.buffer.page_id = page_id;
        f.buffer.page = page;
        f.buffer.is_dirty = true;
        f.used_count = 1;
        f.pin_count = 1;
        proof {
            assert forall|k: int| 0 <= k < old(self).pool_size() implies !old(self).frame_holds(
                k,
                page_id.0,
            ) by {
                if old(self).frames()[k].buf().page_id.is_valid() {
                    assert(old(self).frames()[k].buf().page_id.0 < old(self).disk().next_id());
                }
            }
            assert(!old(self).resident(page_id.0));
            self.lemma_after_recycle(*old(self), evicted, page_id.0, v as int);
        }
        Ok(PageHandle { buffer_id: bid, page_id })
    }

    /// Re-establishes well-formedness after a victim frame was recycled to
    /// hold a page the pool did not hold before.
    proof fn lemma_after_recycle(
        self,
        pre: BufferPoolManager,
        evicted: BufferPoolManager,
        pid: u64,
        v: int,
    )
        requires
            pre.wf(),
            evicted.pool().wf(),
            pid != INVALID_PAGE_ID,
            !pre.resident(pid),
            0 <= v < pre.pool_size(),
            pre.pool_size() == evicted.pool_size(),
            self.pool_size() == pre.pool_size(),
            (forall|k: int|
                0 <= k < pre.pool_size() ==> (#[trigger] evicted.frames()[k]).buf()
                    == pre.frames()[k].buf() && evicted.frames()[k].pins() == pre.frames()[k].pins()
                    && evicted.frames()[k].used() <= pre.frames()[k].used()),
            (forall|k: int|
                0 <= k < pre.pool_size() && k != v ==> #[trigger] self.frames()[k]
                    == evicted.frames()[k]),
            self.frames()[v].buf().page_id.0 == pid,
            self.frames()[v].buf().page.len() == PAGE_SIZE,
            self.frames()[v].used() == 1,
            self.frames()[v].pins() == 1,
            0 <= self.pool().hand() < self.pool_size(),
            pid < self.disk().next_id(),
            pre.disk().next_id() <= self.disk().next_id(),
            page_offset(pid) + PAGE_SIZE as int <= usize::MAX,
            self.disk().image().len() < page_offset(self.disk().next_id()) + PAGE_SIZE as int,
        ensures
            self.wf(),
    {
        assert forall|i: int, j: int|
            0 <= i < j < self.pool_size() && (#[trigger] self.frames()[i]).buf().page_id.is_valid()
                && (#[trigger] self.frames()[j]).buf().page_id.is_valid() implies self.frames()[i].buf().page_id.0 != self.frames()[j].buf().page_id.0 by {
            if i != v && j != v {
                assert(pre.frames()[i].buf() == self.frames()[i].buf());
                assert(pre.frames()[j].buf() == self.frames()[j].buf());
            } else if i == v {
                assert(!pre.frame_holds(j, pid));
            } else {
                assert(!pre.frame_holds(i, pid));
            }
        }
        assert forall|i: int|
            0 <= i < self.pool_size() && (#[trigger] self.frames()[i]).buf().page_id.is_valid() implies page_offset(
            self.frames()[i].buf().page_id.0,
        ) + PAGE_SIZE as int <= usize::MAX && self.frames()[i].buf().page_id.0
            < self.disk().next_id() by {
            if i != v {
                assert(pre.frames()[i].buf() == self.frames()[i].buf());
            }
        }
        assert forall|i: int| 0 <= i < self.pool_size() implies (#[trigger] self.frames()[i]).wf()
            by {
            if i != v {
                assert(evicted.frames()[i].wf());
            }
        }
    }

    /// Writes every resident page's current bytes to disk at its page id and
    /// clears its dirty flag, then issues one sync after all the writes.
    /// Pages the pool does not hold, and everything else about the frames,
    /// are untouched. Within this model the writes and the sync cannot fail,
    /// so the call always succeeds.
    pub fn flush(&mut self) -> (r: Result<(), Error>)
        requires
            old(self).wf(),
        ensures
            final(self).wf(),
            r is Ok,
            final(self).pool_size() == old(self).pool_size(),
            final(self).disk().next_id() == old(self).disk().next_id(),
            final(self).pool().hand() == old(self).pool().hand(),
            old(self).disk().image().len() <= final(self).disk().image().len(),
            (forall|i: int|
                0 <= i < old(self).pool_size() ==> {
                    let f0 = old(self).frames()[i];
                    let f1 = #[trigger] final(self).frames()[i];
                    f1.buf().page_id == f0.buf().page_id && f1.buf().page@ == f0.buf().page@
                        && f1.used() == f0.used() && f1.pins() == f0.pins() && !f1.buf().is_dirty
                }),
            (forall|i: int|
                0 <= i < old(self).pool_size() && (#[trigger] old(
                    self,
                ).frames()[i]).buf().page_id.is_valid() ==> page_within(
                    final(self).disk().image(),
                    old(self).frames()[i].buf().page_id.0,
                ) && page_at(final(self).disk().image(), old(self).frames()[i].buf().page_id.0)
                    == old(self).frames()[i].buf().page@),
            (forall|p: u64|
                page_within(old(self).disk().image(), p) && !old(self).resident(p) ==> page_within(
                    final(self).disk().image(),
                    p,
                ) && page_at(final(self).disk().image(), p) == page_at(
                    old(self).disk().image(),
                    p,
                )),
    {
        let n: usize = self.buffer_pool.buffers.len();
        let mut i: usize = 0;
        while i < n
            invariant
                self.wf(),
                n == self.pool_size(),
                n == old(self).pool_size(),
                0 <= i <= n,
                self.disk().next_id() == old(self).disk().next_id(),
                self.pool().hand() == old(self).pool().hand(),
                old(self).disk().image().len() <= self.disk().image().len(),
                (forall|k: int|
                    0 <= k < n ==> {
                        let f0 = old(self).frames()[k];
                        let f1 = #[trigger] self.frames()[k];
                        f1.buf().page_id == f0.buf().page_id && f1.buf().page@ == f0.buf().page@
                            && f1.used() == f0.used() && f1.pins() == f0.pins()
                    }),
                (forall|k: int| 0 <= k < i ==> !(#[trigger] self.frames()[k]).buf().is_dirty),
                (forall|k: int|
                    i <= k < n ==> (#[trigger] self.frames()[k]).buf().is_dirty == old(
                        self,
                    ).frames()[k].buf().is_dirty),
                (forall|k: int|
                    0 <= k < i && (#[trigger] old(self).frames()[k]).buf().page_id.is_valid()
                        ==> page_within(
                        self.disk().image(),
                        old(self).frames()[k].buf().page_id.0,
                    ) && page_at(self.disk().image(), old(self).frames()[k].buf().page_id.0) == old(
                        self,
                    ).frames()[k].buf().page@),
                (forall|p: u64|
                    page_within(old(self).disk().image(), p) && !old(self).resident(p)
                        ==> page_within(self.disk().image(), p) && page_at(self.disk().image(), p)
                        == page_at(old(self).disk().image(), p)),
            decreases n - i,
        {
            let pid: PageId = self.buffer_pool.buffers[i].buffer.page_id;
            if pid.0 != INVALID_PAGE_ID {
                let ghost before = *self;
                let wrote = self.disk_manager.write_page_data(
                    pid,
                    &self.buffer_pool.buffers[i].buffer.page,
                );
                match wrote {
                    Ok(()) => {},
                    Err(e) => {
                        return Err(Error::Io(e));
                    },
                }
                proof {
                    let img0 = before.disk().image();
                    let img1 = self.disk().image();
                    let wdata = before.frames()[i as int].buf().page@;
                    lemma_write_read_round_trip(img0, pid.0, wdata);
                    assert forall|k: int|
                        0 <= k < i && (#[trigger] old(
                            self,
                        ).frames()[k]).buf().page_id.is_valid() implies page_within(
                        img1,
                        old(self).frames()[k].buf().page_id.0,
                    ) && page_at(img1, old(self).frames()[k].buf().page_id.0) == old(
                        self,
                    ).frames()[k].buf().page@ by {
                        let q = old(self).frames()[k].buf().page_id.0;
                        assert(self.frames()[k].buf().page_id.0 == q);
                        assert(self.frames()[k].buf().page_id.is_valid());
                        assert(self.frames()[i as int].buf().page_id.is_valid());
                        assert(q != pid.0);
                        lemma_write_preserves_other_pages(img0, pid.0, wdata, q);
                    }
                    assert forall|p: u64|
                        page_within(old(self).disk().image(), p) && !old(
                            self,
                        ).resident(p) implies page_within(img1, p) && page_at(img1, p) == page_at(
                        old(self).disk().image(),
                        p,
                    ) by {
                        assert(old(self).frame_holds(i as int, pid.0));
                        assert(p != pid.0);
                        assert(page_within(img0, p));
                        lemma_write_preserves_other_pages(img0, pid.0, wdata, p);
                    }
                    assert(pid.0 < self.disk().next_id());
                    assert(page_offset(pid.0) + PAGE_SIZE as int <= page_offset(
                        self.disk().next_id() as u64,
                    ));
                }
                let f = frame_mut(&mut self.buffer_pool.buffers, i);
                f.buffer.is_dirty = false;
            }
            i += 1;
        }
        let synced = self.disk_manager.sync();
        match synced {
            Ok(()) => Ok(()),
            Err(e) => Err(Error::Io(e)),
        }
    }

    /// A copy of the pinned page's current 4096 bytes.
    pub fn read_page(&self, handle: &PageHandle) -> (r: Vec<u8>)
        requires
            self.wf(),
            self.valid_handle(*handle),
        ensures
            r@ == self.frames()[handle.frame_index()].buf().page@,
    {
        copy_page(&self.buffer_pool.buffers[handle.buffer_id.0].buffer.page)
    }

    /// Replaces the pinned page's 4096 bytes and marks the buffer dirty, so
    /// the new content is written back before the frame is ever reused.
    /// Every handle to the same page observes the write; nothing else in the
    /// pool or on disk changes.
    pub fn write_page(&mut self, handle: &PageHandle, data: &Vec<u8>)
        requires
            old(self).wf(),
            old(self).valid_handle(*handle),
            data.len() == PAGE_SIZE,
        ensures
            final(self).wf(),
            final(self).disk() == old(self).disk(),
            final(self).pool().hand() == old(self).pool().hand(),
            final(self).pool_size() == old(self).pool_size(),
            final(self).valid_handle(*handle),
            (forall|k: int|
                0 <= k < old(self).pool_size() && k != handle.frame_index()
                    ==> #[trigger] final(self).frames()[k] == old(self).frames()[k]),
            final(self).frames()[handle.frame_index()].buf().page@ == data@,
            final(self).frames()[handle.frame_index()].buf().page_id == old(
                self,
            ).frames()[handle.frame_index()].buf().page_id,
            final(self).frames()[handle.frame_index()].buf().is_dirty,
            final(self).frames()[handle.frame_index()].used() == old(
                self,
            ).frames()[handle.frame_index()].used(),
            final(self).frames()[handle.frame_index()].pins() == old(
                self,
            ).frames()[handle.frame_index()].pins(),
    {
        let copied = copy_page(data);
        let f = frame_mut(&mut self.buffer_pool.buffers, handle.buffer_id.0);
        f.buffer.page = copied;
        f.buffer.is_dirty = true;
    }

    /// Releases one pin on the page; equivalent to a client handle going out
    /// of scope. Nothing else changes — in particular the frame's buffer and
    /// recency counter stay as they are.
    pub fn unpin(&mut self, handle: PageHandle)
        requires
            old(self).wf(),
            old(self).valid_handle(handle),
        ensures
            final(self).wf(),
            final(self).disk() == old(self).disk(),
            final(self).pool().hand() == old(self).pool().hand(),
            final(self).pool_size() == old(self).pool_size(),
            (forall|k: int|
                0 <= k < old(self).pool_size() && k != handle.frame_index()
                    ==> #[trigger] final(self).frames()[k] == old(self).frames()[k]),
            final(self).frames()[handle.frame_index()].buf() == old(
                self,
            ).frames()[handle.frame_index()].buf(),
            final(self).frames()[handle.frame_index()].used() == old(
                self,
            ).frames()[handle.frame_index()].used(),
            final(self).frames()[handle.frame_index()].pins() == old(
                self,
            ).frames()[handle.frame_index()].pins() - 1,
    {
        let f = frame_mut(&mut self.buffer_pool.buffers, handle.buffer_id.0);
        f.pin_count = f.pin_count - 1;
    }
}

/// The frame a well-formed manager holds a page in is unique.
proof fn lemma_frame_of_is(m: BufferPoolManager, i: int, pid: u64)
    requires
        m.wf(),
        m.frame_holds(i, pid),
    ensures
        m.resident(pid),
        m.frame_of(pid) == i,
{
    assert(m.resident(pid));
    let w = m.frame_of(pid);
    assert(m.frame_holds(w, pid));
    if w < i {
        assert(m.frames()[w].buf().page_id.is_valid());
        assert(m.frames()[i].buf().page_id.is_valid());
        assert(false);
    } else if w > i {
        assert(m.frames()[i].buf().page_id.is_valid());
        assert(m.frames()[w].buf().page_id.is_valid());
        assert(false);
    }
}

/// Law: a page is resident in at most one frame, so two valid handles for
/// the same page id always address the same frame — a write through one is
/// observed by a read through the other.
pub proof fn lemma_handles_share_frame(m: BufferPoolManager, h1: PageHandle, h2: PageHandle)
    requires
        m.wf(),
        m.valid_handle(h1),
        m.valid_handle(h2),
        h1.id() == h2.id(),
    ensures
        h1.frame_index() == h2.frame_index(),
{
    lemma_frame_of_is(m, h1.frame_index(), h1.id());
    lemma_frame_of_is(m, h2.frame_index(), h2.id());
}

} // verus!
