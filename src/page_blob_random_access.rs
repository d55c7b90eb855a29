use vstd::prelude::*;

use crate::page_blob_utils::{
    get_page_no_from_page_blob_position,
    get_position_within_page,
    offset_in_page_of,
    page_no_of,
};
use crate::pages_cache::{holds, inserted, page_of, well_kept, written, CacheView, PagesCache};

verus! {

/// Bytes in one page of a page blob.
pub const BLOB_PAGE_SIZE: usize = 512;

/// Pages that an adapter keeps in memory at once.
pub const PAGES_CACHE_CAPACITY: usize = 4;

/// Work that only the page-blob transport can do. The adapter hands one back
/// when an operation cannot go on without it.
#[derive(Debug, PartialEq, Eq)]
pub enum Request {
    /// Query the blob's properties, for its size in bytes.
    GetBlobProperties,
    /// Fetch the single page `page_no`.
    GetPage { page_no: usize },
    /// Store `data` from page `page_no` on, at most `max_pages_to_write` pages.
    SavePages { page_no: usize, max_pages_to_write: usize, data: Vec<u8> },
    /// Create the blob with `pages` pages, unless it exists.
    CreateIfNotExists { pages: usize },
}

/// How far an operation got: finished, or waiting for the transport.
#[derive(Debug, PartialEq, Eq)]
pub enum Step<T> {
    Done(T),
    Need(Request),
}

/// Failures that the adapter detects itself, before or without the transport.
#[derive(Debug, Clone, Copy, PartialEq, Eq)]
pub enum AccessError {
    /// The byte range ends past the end of the blob.
    OutOfRange,
    /// The byte range does not fit in a single page.
    SpansPages,
    /// The transport handed back a page whose length is not the page size.
    PageSizeMismatch,
}

/// The known blob size after a property query answered `reply`: a size that
/// is already known never changes.
pub open spec fn recorded_size(known: Option<usize>, reply: usize) -> Option<usize> {
    match known {
        Some(n) => Some(n),
        None => Some(reply),
    }
}

/// What `read` of `len` bytes at `start_pos` answers, given the known blob size
/// and the cache.
pub open spec fn read_outcome(known: Option<usize>, cache: CacheView, start_pos: nat, len: nat) -> Result<
    Step<()>,
    AccessError,
> {
    match known {
        None => Ok(Step::Need(Request::GetBlobProperties)),
        Some(n) => if start_pos + len > n {
            Err(AccessError::OutOfRange)
        } else if offset_in_page_of(start_pos, BLOB_PAGE_SIZE as nat) + len > BLOB_PAGE_SIZE {
            Err(AccessError::SpansPages)
        } else if !holds(cache, page_no_of(start_pos, BLOB_PAGE_SIZE as nat) as usize) {
            Ok(Step::Need(Request::GetPage { page_no: page_no_of(start_pos, BLOB_PAGE_SIZE as nat) as usize }))
        } else {
            Ok(Step::Done(()))
        },
    }
}

/// Byte-range access to a page blob through a small cache of its pages.
///
/// The adapter never talks to the blob itself: an operation that needs the
/// transport answers `Step::Need` with the request to carry out, and the
/// caller feeds the answer back (`blob_size_received`, `add_fetched_page`)
/// and runs the operation again.
pub struct PageBlobRandomAccess<T> {
    pages_cache: PagesCache,
    pub page_blob: T,
    blob_size: Option<usize>,
}

impl<T> PageBlobRandomAccess<T> {
    /// The cached pages, oldest admission first.
    pub closed spec fn cache(&self) -> CacheView {
        self.pages_cache@
    }

    /// The blob size, once a property query has answered.
    pub closed spec fn known_blob_size(&self) -> Option<usize> {
        self.blob_size
    }

    /// The transport handle that the adapter carries for its caller.
    pub closed spec fn transport(&self) -> T {
        self.page_blob
    }

    pub closed spec fn wf(&self) -> bool {
        &&& self.pages_cache.wf()
        &&& self.pages_cache.capacity_spec() == PAGES_CACHE_CAPACITY
        &&& self.pages_cache.page_size_spec() == BLOB_PAGE_SIZE
    }

    /// A well-formed adapter keeps at most `PAGES_CACHE_CAPACITY` distinct pages
    /// of `BLOB_PAGE_SIZE` bytes each.
    pub proof fn lemma_wf_cache(&self)
        requires
            self.wf(),
        ensures
            well_kept(self.cache(), PAGES_CACHE_CAPACITY as nat, BLOB_PAGE_SIZE as nat),
    {
    }

    pub fn new(page_blob: T) -> (r: Self)
        ensures
            r.wf(),
            r.cache() == Seq::<(usize, Seq<u8>)>::empty(),
            r.known_blob_size() is None,
            r.transport() == page_blob,
    {
        PageBlobRandomAccess {
            pages_cache: PagesCache::new(PAGES_CACHE_CAPACITY, BLOB_PAGE_SIZE),
            page_blob,
            blob_size: None,
        }
    }

    /// The blob size if known; otherwise the property query to make.
    pub fn get_blob_size(&self) -> (r: Step<usize>)
        ensures
            r == (match self.known_blob_size() {
                Some(n) => Step::Done(n),
                None => Step::Need(Request::GetBlobProperties),
            }),
    {
        match self.blob_size {
            Some(n) => Step::Done(n),
            None => Step::Need(Request::GetBlobProperties),
        }
    }

    /// Takes the answer of a property query. The first answer is kept for the
    /// adapter's lifetime; the size it returns is the one kept.
    pub fn blob_size_received(&mut self, blob_size: usize) -> (r: usize)
        requires
            old(self).wf(),
        ensures
            final(self).wf(),
            final(self).known_blob_size() == recorded_size(old(self).known_blob_size(), blob_size),
            final(self).known_blob_size() == Some(r),
            final(self).cache() == old(self).cache(),
            final(self).transport() == old(self).transport(),
    {
        match self.blob_size {
            Some(n) => n,
            None => {
                self.blob_size = Some(blob_size);
                blob_size
            },
        }
    }
    /// Copies `copy_to.len()` bytes from `start_pos` on into `copy_to`. The
    /// range is checked against the blob size before any page is fetched, and
    /// must lie within one page.
    pub fn read(&self, start_pos: usize, copy_to: &mut Vec<u8>) -> (r: Result<Step<()>, AccessError>)
        requires
            self.wf(),
        ensures
            r == read_outcome(self.known_blob_size(), self.cache(), start_pos as nat, old(copy_to)@.len()),
            r == Ok::<Step<()>, AccessError>(Step::Done(())) ==> final(copy_to)@ == page_of(
                self.cache(),
                page_no_of(start_pos as nat, BLOB_PAGE_SIZE as nat) as usize,
            ).subrange(
                offset_in_page_of(start_pos as nat, BLOB_PAGE_SIZE as nat) as int,
                (offset_in_page_of(start_pos as nat, BLOB_PAGE_SIZE as nat) + old(copy_to)@.len()) as int,
            ),
            r != Ok::<Step<()>, AccessError>(Step::Done(())) ==> final(copy_to)@ == old(copy_to)@,
    {
        let blob_size = match self.blob_size {
            Some(n) => n,
            None => {
                return Ok(Step::Need(Request::GetBlobProperties));
            },
        };
        let len = copy_to.len();
        if start_pos > blob_size || len > blob_size - start_pos {
            return Err(AccessError::OutOfRange);
        }
        let page_no = get_page_no_from_page_blob_position(start_pos, BLOB_PAGE_SIZE);
        let pos_in_page = get_position_within_page(start_pos, BLOB_PAGE_SIZE);
        if len > BLOB_PAGE_SIZE - pos_in_page {
            return Err(AccessError::SpansPages);
        }
        let page = match self.pages_cache.get_page(page_no) {
            Some(page) => page,
            None => {
                return Ok(Step::Need(Request::GetPage { page_no }));
            },
        };
        let ghost source = page.data@;
        assert(source.len() == BLOB_PAGE_SIZE) by {
            self.lemma_wf_cache();
            let i = crate::pages_cache::slot_of(self.cache(), page_no);
            assert(self.cache()[i].1.len() == BLOB_PAGE_SIZE);
        }
        let mut k: usize = 0;
        while k < len
            invariant
                k <= len,
                len == copy_to@.len(),
                pos_in_page + len <= source.len(),
                source.len() == BLOB_PAGE_SIZE,
                source == page.data@,
                forall|j: int| 0 <= j < k ==> #[trigger] copy_to@[j] == source[pos_in_page + j],
            decreases len - k,
        {
            copy_to[k] = page.data[pos_in_page + k];
            k = k + 1;
        }
        assert(copy_to@ =~= source.subrange(pos_in_page as int, pos_in_page + len));
        Ok(Step::Done(()))
    }

    /// Nothing to do when page `page_no` is cached; otherwise the fetch to make.
    pub fn make_sure_page_is_in_cache(&self, page_no: usize) -> (r: Step<()>)
        requires
            self.wf(),
        ensures
            r == (if holds(self.cache(), page_no) {
                Step::Done(())
            } else {
                Step::Need(Request::GetPage { page_no })
            }),
    {
        if self.pages_cache.has_page(page_no) {
            Step::Done(())
        } else {
            Step::Need(Request::GetPage { page_no })
        }
    }

    /// Takes the answer of a page fetch. A page that is already cached keeps
    /// its cached bytes, which hold the adapter's latest writes.
    pub fn add_fetched_page(&mut self, page_no: usize, data: Vec<u8>) -> (r: Result<(), AccessError>)
        requires
            old(self).wf(),
        ensures
            final(self).wf(),
            final(self).known_blob_size() == old(self).known_blob_size(),
            final(self).transport() == old(self).transport(),
            data@.len() != BLOB_PAGE_SIZE ==> r == Err::<(), AccessError>(AccessError::PageSizeMismatch)
                && final(self).cache() == old(self).cache(),
            data@.len() == BLOB_PAGE_SIZE ==> r is Ok && final(self).cache() == if holds(
                old(self).cache(),
                page_no,
            ) {
                old(self).cache()
            } else {
                inserted(old(self).cache(), PAGES_CACHE_CAPACITY as nat, page_no, data@)
            },
    {
        if data.len() != BLOB_PAGE_SIZE {
            return Err(AccessError::PageSizeMismatch);
        }
        if !self.pages_cache.has_page(page_no) {
            self.pages_cache.add_page(page_no, data);
        }
        Ok(())
    }

    /// Copies `payload` into the cached page that holds `start_pos`, then asks
    /// for the whole page to be stored. The page must be cached first, so that
    /// the bytes around the payload are kept; the range must lie within one page.
    pub fn write(&mut self, start_pos: usize, max_pages_to_write: usize, payload: &Vec<u8>) -> (r:
        Result<Step<()>, AccessError>)
        requires
            old(self).wf(),
        ensures
            final(self).wf(),
            final(self).known_blob_size() == old(self).known_blob_size(),
            final(self).transport() == old(self).transport(),
            offset_in_page_of(start_pos as nat, BLOB_PAGE_SIZE as nat) + payload@.len() > BLOB_PAGE_SIZE
                ==> r == Err::<Step<()>, AccessError>(AccessError::SpansPages) && final(self).cache()
                == old(self).cache(),
            offset_in_page_of(start_pos as nat, BLOB_PAGE_SIZE as nat) + payload@.len() <= BLOB_PAGE_SIZE
                && !holds(old(self).cache(), page_no_of(start_pos as nat, BLOB_PAGE_SIZE as nat) as usize)
                ==> r == Ok::<Step<()>, AccessError>(
                Step::Need(
                    Request::GetPage {
                        page_no: page_no_of(start_pos as nat, BLOB_PAGE_SIZE as nat) as usize,
                    },
                ),
            ) && final(self).cache() == old(self).cache(),
            offset_in_page_of(start_pos as nat, BLOB_PAGE_SIZE as nat) + payload@.len() <= BLOB_PAGE_SIZE
                && holds(old(self).cache(), page_no_of(start_pos as nat, BLOB_PAGE_SIZE as nat) as usize)
                ==> final(self).cache() == written(
                old(self).cache(),
                page_no_of(start_pos as nat, BLOB_PAGE_SIZE as nat) as usize,
                offset_in_page_of(start_pos as nat, BLOB_PAGE_SIZE as nat),
                payload@,
            ) && (r matches Ok(Step::Need(Request::SavePages { page_no, max_pages_to_write: m, data }))
                && page_no == page_no_of(start_pos as nat, BLOB_PAGE_SIZE as nat) && m
                == max_pages_to_write && data@ == page_of(final(self).cache(), page_no)),
    {
        let page_no = get_page_no_from_page_blob_position(start_pos, BLOB_PAGE_SIZE);
        let pos_in_page = get_position_within_page(start_pos, BLOB_PAGE_SIZE);
        if payload.len() > BLOB_PAGE_SIZE - pos_in_page {
            return Err(AccessError::SpansPages);
        }
        if !self.pages_cache.has_page(page_no) {
            return Ok(Step::Need(Request::GetPage { page_no }));
        }
        let ghost before = self.cache();
        proof {
            self.lemma_wf_cache();
            let i = crate::pages_cache::slot_of(before, page_no);
            assert(before[i].1.len() == BLOB_PAGE_SIZE);
            crate::pages_cache::lemma_read_after_write(before, page_no, pos_in_page as nat, payload@);
        }
        self.pages_cache.copy_into_page(page_no, pos_in_page, payload);
        let data = self.pages_cache.clone_page(page_no).unwrap();
        Ok(Step::Need(Request::SavePages { page_no, max_pages_to_write, data }))
    }

    /// The request that creates a blob of `pages` pages unless it exists.
    pub fn create_new(&self, pages: usize) -> (r: Request)
        ensures
            r == (Request::CreateIfNotExists { pages }),
    {
        Request::CreateIfNotExists { pages }
    }
}

/// A property query is made at most once per adapter: after any answer the
/// size is known, and no later answer changes it, so `get_blob_size` asks for
/// no further query.
pub proof fn lemma_blob_size_queried_once(known: Option<usize>, first: usize, later: usize)
    ensures
        recorded_size(known, first) is Some,
        recorded_size(recorded_size(known, first), later) == recorded_size(known, first),
{
}

/// Reading back what a write just copied into the cache: with the range inside
/// the blob, the read finishes without the transport and yields the payload.
pub proof fn lemma_write_then_read(
    cache: CacheView,
    blob_size: usize,
    start_pos: usize,
    payload: Seq<u8>,
)
    requires
        well_kept(cache, PAGES_CACHE_CAPACITY as nat, BLOB_PAGE_SIZE as nat),
        holds(cache, page_no_of(start_pos as nat, BLOB_PAGE_SIZE as nat) as usize),
        offset_in_page_of(start_pos as nat, BLOB_PAGE_SIZE as nat) + payload.len() <= BLOB_PAGE_SIZE,
        start_pos + payload.len() <= blob_size,
    ensures
        ({
            let page_no = page_no_of(start_pos as nat, BLOB_PAGE_SIZE as nat) as usize;
            let offset = offset_in_page_of(start_pos as nat, BLOB_PAGE_SIZE as nat);
            let after = written(cache, page_no, offset, payload);
            &&& read_outcome(Some(blob_size), after, start_pos as nat, payload.len())
                == Ok::<Step<()>, AccessError>(Step::Done(()))
            &&& page_of(after, page_no).subrange(offset as int, (offset + payload.len()) as int)
                == payload
        }),
{
    let page_no = page_no_of(start_pos as nat, BLOB_PAGE_SIZE as nat) as usize;
    let offset = offset_in_page_of(start_pos as nat, BLOB_PAGE_SIZE as nat);
    let i = crate::pages_cache::slot_of(cache, page_no);
    assert(cache[i].1.len() == BLOB_PAGE_SIZE);
    crate::pages_cache::lemma_read_after_write(cache, page_no, offset, payload);
}

/// A read that ends past the end of the blob fails with `OutOfRange` whatever
/// the cache holds, so it asks the transport for nothing.
pub proof fn lemma_out_of_range_read_fails(cache: CacheView, blob_size: usize, start_pos: usize, len: nat)
    requires
        start_pos + len > blob_size,
    ensures
        read_outcome(Some(blob_size), cache, start_pos as nat, len) == Err::<Step<()>, AccessError>(
            AccessError::OutOfRange,
        ),
{
}

} // verus!
