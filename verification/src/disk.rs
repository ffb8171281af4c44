//! The disk manager: durable, page-addressed storage over one heap file.
//!
//! The heap file is held as its full byte image, logically partitioned into
//! fixed 4096-byte pages at `offset = page_id * 4096`. Page ids are handed
//! out by an append-only allocator that starts at `file length / 4096`, so a
//! manager opened on an existing image never re-issues an id whose page is
//! already on the file. Loading the image from a real file on open, and
//! persisting it again afterwards, is the business of the embedding program;
//! everything between those two edges is verified here.

use vstd::arithmetic::div_mod::lemma_fundamental_div_mod;
use vstd::prelude::*;

verus! {

/// Size in bytes of one page.
pub const PAGE_SIZE: usize = 4096;

/// Reserved page number meaning "no page": the default id of a frame that
/// holds no real data yet. It is never allocated.
pub const INVALID_PAGE_ID: u64 = u64::MAX;

/// Logical identifier of one on-disk page.
#[derive(Debug, Clone, Copy, PartialEq, Eq, Hash, Structural)]
pub struct PageId(pub u64);

impl PageId {
    /// Every id other than the reserved sentinel names a real page.
    pub open spec fn is_valid(self) -> bool {
        self.0 != INVALID_PAGE_ID
    }

    pub fn valid(self) -> (r: Option<PageId>)
        ensures
            r == (if self.is_valid() {
                Some(self)
            } else {
                None::<PageId>
            }),
    {
        if self.0 == INVALID_PAGE_ID {
            None
        } else {
            Some(self)
        }
    }

    pub fn to_u64(self) -> (r: u64)
        ensures
            r == self.0,
    {
        self.0
    }
}

impl Default for PageId {
    /// A frame that holds no page yet carries the invalid id.
    fn default() -> (r: Self)
        ensures
            r.0 == INVALID_PAGE_ID,
    {
        PageId(INVALID_PAGE_ID)
    }
}

/// The one failure the storage layer reports: an attempt to read a page that
/// lies beyond the end of the heap file. (Device failures belong to the
/// embedding program's real file layer, outside this model.)
#[derive(Debug, Clone, Copy, PartialEq, Eq, Structural)]
pub struct IoError;

/// Byte offset at which the page `pid` starts.
pub open spec fn page_offset(pid: u64) -> int {
    pid as int * PAGE_SIZE as int
}

/// The page `pid` lies entirely within the image.
pub open spec fn page_within(image: Seq<u8>, pid: u64) -> bool {
    page_offset(pid) + PAGE_SIZE as int <= image.len()
}

/// The 4096 bytes of page `pid` within the image.
pub open spec fn page_at(image: Seq<u8>, pid: u64) -> Seq<u8> {
    image.subrange(page_offset(pid), page_offset(pid) + PAGE_SIZE as int)
}

/// The image after writing `data` as page `pid`: the 4096 bytes at the page's
/// offset are replaced, the file is extended (zero-filling any gap) where the
/// page lies beyond the old end, and every other byte is unchanged.
pub open spec fn with_page(image: Seq<u8>, pid: u64, data: Seq<u8>) -> Seq<u8> {
    let off: int = page_offset(pid);
    let end: int = off + PAGE_SIZE as int;
    let new_len: int = if end >= image.len() {
        end
    } else {
        image.len() as int
    };
    Seq::new(
        new_len as nat,
        |j: int|
            if off <= j < end {
                data[j - off]
            } else if j < image.len() {
                image[j]
            } else {
                0u8
            },
    )
}

/// Law: a page written to the heap file reads back byte-identical.
pub proof fn lemma_write_read_round_trip(image: Seq<u8>, pid: u64, data: Seq<u8>)
    requires
        data.len() == PAGE_SIZE,
    ensures
        page_within(with_page(image, pid, data), pid),
        page_at(with_page(image, pid, data), pid) == data,
{
    assert(page_at(with_page(image, pid, data), pid) =~= data);
}

/// Law: writing one page leaves every other page of the file unchanged.
pub proof fn lemma_write_preserves_other_pages(image: Seq<u8>, pid: u64, data: Seq<u8>, other: u64)
    requires
        data.len() == PAGE_SIZE,
        other != pid,
        page_within(image, other),
    ensures
        page_within(with_page(image, pid, data), other),
        page_at(with_page(image, pid, data), other) == page_at(image, other),
{
    if other < pid {
        assert(page_offset(other) + PAGE_SIZE as int <= page_offset(pid));
    } else {
        assert(page_offset(pid) + PAGE_SIZE as int <= page_offset(other));
    }
    assert(page_at(with_page(image, pid, data), other) =~= page_at(image, other));
}

/// Law: a manager re-opened on an image resumes allocation past every page
/// the image holds, so freshly allocated ids never collide with them.
pub proof fn lemma_reopen_allocates_fresh(image: Seq<u8>, pid: u64)
    requires
        page_within(image, pid),
    ensures
        pid < image.len() as int / PAGE_SIZE as int,
{
    let len: int = image.len() as int;
    let p: int = PAGE_SIZE as int;
    lemma_fundamental_div_mod(len, p);
    assert(pid as int * p + p <= len);
    assert(len == p * (len / p) + len % p);
    assert(pid < len / p) by {
        if pid as int >= len / p {
            assert(pid as int * p >= (len / p) * p) by (nonlinear_arith)
                requires
                    pid as int >= len / p,
                    p > 0,
            ;
        }
    }
}

/// The heap file and its page allocator. The file is carried as its byte
/// image; `next_page_id` is the id the next allocation will hand out.
pub struct DiskManager {
    heap_file: Vec<u8>,
    next_page_id: u64,
}

impl DiskManager {
    /// The current byte image of the heap file.
    pub closed spec fn image(self) -> Seq<u8> {
        self.heap_file@
    }

    /// The id the next allocation will return.
    pub closed spec fn next_id(self) -> u64 {
        self.next_page_id
    }

    /// Opens a manager over the given heap file image. Allocation resumes at
    /// `file length / 4096`, so ids of pages already on the file are not
    /// re-issued.
    pub fn new(heap_file: Vec<u8>) -> (r: DiskManager)
        ensures
            r.image() == heap_file@,
            r.next_id() == heap_file@.len() as int / PAGE_SIZE as int,
            page_offset(r.next_id()) <= heap_file@.len(),
            heap_file@.len() < page_offset(r.next_id()) + PAGE_SIZE as int,
    {
        proof {
            lemma_fundamental_div_mod(heap_file@.len() as int, PAGE_SIZE as int);
        }
        let next_page_id: u64 = (heap_file.len() / PAGE_SIZE) as u64;
        DiskManager { heap_file, next_page_id }
    }

    /// Hands out the next unused page id; ids are strictly increasing and
    /// never reused. Allocation itself touches no bytes of the file.
    pub fn allocate_page(&mut self) -> (r: PageId)
        requires
            old(self).next_id() < INVALID_PAGE_ID,
        ensures
            r.0 == old(self).next_id(),
            r.is_valid(),
            final(self).next_id() == old(self).next_id() + 1,
            final(self).image() == old(self).image(),
    {
        let page_id: u64 = self.next_page_id;
        self.next_page_id = self.next_page_id + 1;
        PageId(page_id)
    }

    /// True when the page lies entirely within the file's current extent,
    /// which is exactly when reading it will succeed.
    pub fn page_in_extent(&self, page_id: PageId) -> (r: bool)
        ensures
            r == page_within(self.image(), page_id.0),
            r ==> page_offset(page_id.0) + PAGE_SIZE as int <= usize::MAX,
    {
        let len: usize = self.heap_file.len();
        proof {
            lemma_fundamental_div_mod(usize::MAX as int, PAGE_SIZE as int);
        }
        if page_id.0 > (usize::MAX / PAGE_SIZE) as u64 {
            return false;
        }
        let off: usize = page_id.0 as usize * PAGE_SIZE;
        off <= len && len - off >= PAGE_SIZE
    }

    /// Reads page `page_id` into `data`. Reading a page beyond the current
    /// end of the file is an error, not zero-fill; on error `data` is left as
    /// it was.
    pub fn read_page_data(&mut self, page_id: PageId, data: &mut Vec<u8>) -> (r: Result<
        (),
        IoError,
    >)
        requires
            old(data).len() == PAGE_SIZE,
        ensures
            final(self).image() == old(self).image(),
            final(self).next_id() == old(self).next_id(),
            final(data).len() == PAGE_SIZE,
            page_within(old(self).image(), page_id.0) ==> r is Ok && final(data)@ == page_at(
                old(self).image(),
                page_id.0,
            ),
            !page_within(old(self).image(), page_id.0) ==> r is Err && final(data)@ == old(data)@,
    {
        let len: usize = self.heap_file.len();
        proof {
            lemma_fundamental_div_mod(usize::MAX as int, PAGE_SIZE as int);
        }
        if page_id.0 > (usize::MAX / PAGE_SIZE) as u64 {
            return Err(IoError);
        }
        let off: usize = page_id.0 as usize * PAGE_SIZE;
        if off > len || len - off < PAGE_SIZE {
            return Err(IoError);
        }
        let mut i: usize = 0;
        while i < PAGE_SIZE
            invariant
                0 <= i <= PAGE_SIZE,
                off + PAGE_SIZE as int <= self.heap_file.len(),
                off == page_offset(page_id.0),
                self.heap_file@ == old(self).image(),
                self.next_page_id == old(self).next_id(),
                data.len() == PAGE_SIZE,
                forall|j: int| 0 <= j < i ==> data@[j] == old(self).image()[off + j],
                forall|j: int| i <= j < PAGE_SIZE ==> data@[j] == old(data)@[j],
            decreases PAGE_SIZE - i,
        {
            let b: u8 = self.heap_file[off + i];
            data.set(i, b);
            i += 1;
        }
        proof {
            assert(data@ =~= page_at(old(self).image(), page_id.0));
        }
        Ok(())
    }

    /// Writes `data` as page `page_id`, extending the file if the page lies
    /// beyond its current end. The image must stay addressable, so the page's
    /// end offset has to fit the machine's byte range.
    pub fn write_page_data(&mut self, page_id: PageId, data: &Vec<u8>) -> (r: Result<(), IoError>)
        requires
            data.len() == PAGE_SIZE,
            page_offset(page_id.0) + PAGE_SIZE as int <= usize::MAX,
        ensures
            r is Ok,
            final(self).image() == with_page(old(self).image(), page_id.0, data@),
            final(self).next_id() == old(self).next_id(),
    {
        let off: usize = page_id.0 as usize * PAGE_SIZE;
        let end: usize = off + PAGE_SIZE;
        while self.heap_file.len() < end
            invariant
                off == page_offset(page_id.0),
                end == off + PAGE_SIZE as int,
                self.next_page_id == old(self).next_id(),
                old(self).image().len() <= self.heap_file.len(),
                self.heap_file.len() <= end || self.heap_file@ == old(self).image(),
                forall|j: int|
                    0 <= j < self.heap_file.len() ==> self.heap_file@[j] == (if j < old(
                        self,
                    ).image().len() {
                        old(self).image()[j]
                    } else {
                        0u8
                    }),
            decreases end - self.heap_file.len(),
        {
            self.heap_file.push(0u8);
        }
        let ghost extended = self.heap_file@;
        let mut i: usize = 0;
        while i < PAGE_SIZE
            invariant
                0 <= i <= PAGE_SIZE,
                off == page_offset(page_id.0),
                end == off + PAGE_SIZE as int,
                end <= self.heap_file.len(),
                self.heap_file.len() == extended.len(),
                old(self).image().len() <= extended.len(),
                extended.len() == end || extended.len() == old(self).image().len(),
                forall|j: int|
                    0 <= j < extended.len() ==> extended[j] == (if j < old(self).image().len() {
                        old(self).image()[j]
                    } else {
                        0u8
                    }),
                data.len() == PAGE_SIZE,
                self.next_page_id == old(self).next_id(),
                forall|j: int|
                    off <= j < off + i ==> #[trigger] self.heap_file@[j] == data@[j - off],
                forall|j: int|
                    0 <= j < self.heap_file.len() && !(off <= j < off + i)
                        ==> #[trigger] self.heap_file@[j] == extended[j],
            decreases PAGE_SIZE - i,
        {
            let b: u8 = data[i];
            self.heap_file.set(off + i, b);
            i += 1;
        }
        proof {
            assert(self.heap_file@ =~= with_page(old(self).image(), page_id.0, data@));
        }
        Ok(())
    }

    /// Forces buffered writes to stable storage. The image carries every
    /// write already, so within this model the call changes nothing; the
    /// embedding program persists the image to the real file here.
    pub fn sync(&mut self) -> (r: Result<(), IoError>)
        ensures
            r is Ok,
            final(self).image() == old(self).image(),
            final(self).next_id() == old(self).next_id(),
    {
        Ok(())
    }

    /// Gives the heap file image back, for persisting or re-opening.
    pub fn into_heap_file(self) -> (r: Vec<u8>)
        ensures
            r@ == self.image(),
    {
        self.heap_file
    }
}

} // verus!
