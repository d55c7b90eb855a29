use vstd::prelude::*;

verus! {

/// What a cache holds, oldest admission first: each entry is a page number
/// and that page's bytes.
pub type CacheView = Seq<(usize, Seq<u8>)>;

/// `page_no` is resident in `s`.
pub open spec fn holds(s: CacheView, page_no: usize) -> bool {
    exists|i: int| 0 <= i < s.len() && (#[trigger] s[i]).0 == page_no
}

/// No page number occurs twice in `s`.
pub open spec fn unique_pages(s: CacheView) -> bool {
    forall|i: int, j: int|
        0 <= i < s.len() && 0 <= j < s.len() && i != j ==> (#[trigger] s[i]).0 != (#[trigger] s[j]).0
}

/// The slot of `page_no` in `s` (meaningful when it is resident).
pub open spec fn slot_of(s: CacheView, page_no: usize) -> int {
    choose|i: int| 0 <= i < s.len() && (#[trigger] s[i]).0 == page_no
}

/// The bytes that `s` holds for `page_no` (meaningful when it is resident).
pub open spec fn page_of(s: CacheView, page_no: usize) -> Seq<u8> {
    s[slot_of(s, page_no)].1
}

/// The cache after admitting `data` as page `page_no`. A resident page is
/// replaced where it stands; otherwise the page joins at the back, and a cache
/// that already holds `capacity` pages first drops its oldest one (first in,
/// first out).
pub open spec fn inserted(s: CacheView, capacity: nat, page_no: usize, data: Seq<u8>) -> CacheView {
    if holds(s, page_no) {
        s.update(slot_of(s, page_no), (page_no, data))
    } else if s.len() < capacity {
        s.push((page_no, data))
    } else {
        s.drop_first().push((page_no, data))
    }
}

/// `data` with `payload` laid over it from `offset` on.
pub open spec fn overwritten(data: Seq<u8>, offset: nat, payload: Seq<u8>) -> Seq<u8> {
    Seq::new(
        data.len(),
        |k: int|
            if offset <= k < offset + payload.len() {
                payload[k - offset]
            } else {
                data[k]
            },
    )
}

/// The cache after `payload` was copied into resident page `page_no` at `offset`.
pub open spec fn written(s: CacheView, page_no: usize, offset: nat, payload: Seq<u8>) -> CacheView {
    s.update(slot_of(s, page_no), (page_no, overwritten(page_of(s, page_no), offset, payload)))
}

/// Two slots of a cache without repeated pages that hold the same page are one slot.
proof fn lemma_slot_is_unique(s: CacheView, page_no: usize, i: int)
    requires
        unique_pages(s),
        0 <= i < s.len(),
        s[i].0 == page_no,
    ensures
        holds(s, page_no),
        slot_of(s, page_no) == i,
        page_of(s, page_no) == s[i].1,
{
    assert(holds(s, page_no));
    let j = slot_of(s, page_no);
    assert(s[j].0 == page_no);
    if j != i {
        assert(s[j].0 != s[i].0);
    }
}

/// Pages of a cache without repeated pages, with pages of `page_size` bytes, at
/// most `capacity` of them.
pub open spec fn well_kept(s: CacheView, capacity: nat, page_size: nat) -> bool {
    &&& s.len() <= capacity
    &&& unique_pages(s)
    &&& forall|i: int| 0 <= i < s.len() ==> (#[trigger] s[i]).1.len() == page_size
}

/// Admitting a page of the right size keeps a cache well kept.
pub proof fn lemma_inserted_is_well_kept(
    s: CacheView,
    capacity: nat,
    page_size: nat,
    page_no: usize,
    data: Seq<u8>,
)
    requires
        capacity > 0,
        well_kept(s, capacity, page_size),
        data.len() == page_size,
    ensures
        well_kept(inserted(s, capacity, page_no, data), capacity, page_size),
{
    let r = inserted(s, capacity, page_no, data);
    if holds(s, page_no) {
        let k = slot_of(s, page_no);
        assert forall|i: int, j: int|
            0 <= i < r.len() && 0 <= j < r.len() && i != j implies (#[trigger] r[i]).0 != (#[trigger] r[j]).0 by {
            assert(r[i].0 == s[i].0);
            assert(r[j].0 == s[j].0);
        }
    } else if s.len() < capacity {
        assert forall|i: int, j: int|
            0 <= i < r.len() && 0 <= j < r.len() && i != j implies (#[trigger] r[i]).0 != (#[trigger] r[j]).0 by {
            if i < s.len() && j < s.len() {
                assert(r[i] == s[i] && r[j] == s[j]);
            } else if i < s.len() {
                assert(r[i] == s[i]);
            } else {
                assert(r[j] == s[j]);
            }
        }
    } else {
        let t = s.drop_first();
        assert forall|i: int, j: int|
            0 <= i < r.len() && 0 <= j < r.len() && i != j implies (#[trigger] r[i]).0 != (#[trigger] r[j]).0 by {
            if i < t.len() && j < t.len() {
                assert(r[i] == s[i + 1] && r[j] == s[j + 1]);
            } else if i < t.len() {
                assert(r[i] == s[i + 1]);
            } else {
                assert(r[j] == s[j + 1]);
            }
        }
        assert forall|i: int| 0 <= i < r.len() implies (#[trigger] r[i]).1.len() == page_size by {
            if i < t.len() {
                assert(r[i] == s[i + 1]);
            }
        }
    }
}

/// A page just admitted to a well-kept cache is resident and holds exactly
/// the bytes admitted.
pub proof fn lemma_inserted_page_is_resident(
    s: CacheView,
    capacity: nat,
    page_size: nat,
    page_no: usize,
    data: Seq<u8>,
)
    requires
        capacity > 0,
        well_kept(s, capacity, page_size),
        data.len() == page_size,
    ensures
        holds(inserted(s, capacity, page_no, data), page_no),
        page_of(inserted(s, capacity, page_no, data), page_no) == data,
        inserted(s, capacity, page_no, data).len() <= capacity,
{
    lemma_inserted_is_well_kept(s, capacity, page_size, page_no, data);
    let r = inserted(s, capacity, page_no, data);
    if holds(s, page_no) {
        lemma_slot_is_unique(r, page_no, slot_of(s, page_no));
    } else {
        lemma_slot_is_unique(r, page_no, r.len() - 1);
    }
}

/// Admitting a new page to a full cache evicts exactly its oldest page: the
/// cache stays full, the oldest page is gone, and every other page stays with
/// its bytes.
pub proof fn lemma_full_cache_evicts_oldest(
    s: CacheView,
    capacity: nat,
    page_size: nat,
    page_no: usize,
    data: Seq<u8>,
)
    requires
        capacity > 0,
        well_kept(s, capacity, page_size),
        data.len() == page_size,
        s.len() == capacity,
        !holds(s, page_no),
    ensures
        inserted(s, capacity, page_no, data).len() == capacity,
        !holds(inserted(s, capacity, page_no, data), s[0].0),
        forall|k: int|
            1 <= k < s.len() ==> holds(inserted(s, capacity, page_no, data), (#[trigger] s[k]).0)
                && page_of(inserted(s, capacity, page_no, data), s[k].0) == s[k].1,
{
    lemma_inserted_is_well_kept(s, capacity, page_size, page_no, data);
    let r = inserted(s, capacity, page_no, data);
    assert(r == s.drop_first().push((page_no, data)));
    if holds(r, s[0].0) {
        let j = slot_of(r, s[0].0);
        if j < r.len() - 1 {
            assert(r[j] == s[j + 1]);
            assert(s[j + 1].0 != s[0].0);
        } else {
            assert(s[0].0 != page_no);
        }
    }
    assert forall|k: int| 1 <= k < s.len() implies holds(r, (#[trigger] s[k]).0) && page_of(r, s[k].0)
        == s[k].1 by {
        assert(r[k - 1] == s[k]);
        lemma_slot_is_unique(r, s[k].0, k - 1);
    }
}

/// After `payload` is copied into a resident page, that page reads back
/// `payload` at the same offset, and every other page is as it was.
pub proof fn lemma_read_after_write(s: CacheView, page_no: usize, offset: nat, payload: Seq<u8>)
    requires
        unique_pages(s),
        holds(s, page_no),
        offset + payload.len() <= page_of(s, page_no).len(),
    ensures
        holds(written(s, page_no, offset, payload), page_no),
        page_of(written(s, page_no, offset, payload), page_no).len() == page_of(s, page_no).len(),
        page_of(written(s, page_no, offset, payload), page_no).subrange(
            offset as int,
            (offset + payload.len()) as int,
        ) == payload,
        forall|q: usize|
            q != page_no ==> (holds(written(s, page_no, offset, payload), q) == holds(s, q)
                && (holds(s, q) ==> page_of(written(s, page_no, offset, payload), q) == page_of(
                s,
                q,
            ))),
{
    let r = written(s, page_no, offset, payload);
    let k = slot_of(s, page_no);
    assert(s[k].0 == page_no);
    assert(unique_pages(r)) by {
        assert forall|i: int, j: int|
            0 <= i < r.len() && 0 <= j < r.len() && i != j implies (#[trigger] r[i]).0 != (#[trigger] r[j]).0 by {
            assert(r[i].0 == s[i].0);
            assert(r[j].0 == s[j].0);
        }
    }
    lemma_slot_is_unique(r, page_no, k);
    assert(page_of(r, page_no).subrange(offset as int, (offset + payload.len()) as int) =~= payload);
    assert forall|q: usize| q != page_no implies (holds(r, q) == holds(s, q) && (holds(s, q)
        ==> page_of(r, q) == page_of(s, q))) by {
        if holds(s, q) {
            let i = slot_of(s, q);
            assert(s[i].0 == q);
            assert(r[i] == s[i]);
            lemma_slot_is_unique(r, q, i);
        }
        if holds(r, q) {
            let i = slot_of(r, q);
            assert(r[i].0 == q);
            assert(r[i] == s[i]);
        }
    }
}

/// One cached page.
pub struct PageCacheItem {
    pub page_no: usize,
    pub data: Vec<u8>,
}

impl PageCacheItem {
    pub open spec fn entry(&self) -> (usize, Seq<u8>) {
        (self.page_no, self.data@)
    }
}

/// A bounded set of pages keyed by page number. When full, admitting a new page
/// evicts the page that was admitted earliest.
pub struct PagesCache {
    pages: Vec<PageCacheItem>,
    capacity: usize,
    page_size: usize,
}

impl View for PagesCache {
    type V = CacheView;

    closed spec fn view(&self) -> CacheView {
        self.pages@.map_values(|it: PageCacheItem| it.entry())
    }
}

impl PagesCache {
    /// Most pages that the cache holds at once.
    pub closed spec fn capacity_spec(&self) -> nat {
        self.capacity as nat
    }

    /// Length in bytes of every cached page.
    pub closed spec fn page_size_spec(&self) -> nat {
        self.page_size as nat
    }

    pub open spec fn wf(&self) -> bool {
        &&& 0 < self.capacity_spec()
        &&& 0 < self.page_size_spec()
        &&& well_kept(self@, self.capacity_spec(), self.page_size_spec())
    }

    pub fn new(capacity: usize, page_size: usize) -> (r: Self)
        requires
            capacity > 0,
            page_size > 0,
        ensures
            r.wf(),
            r@ == Seq::<(usize, Seq<u8>)>::empty(),
            r.capacity_spec() == capacity,
            r.page_size_spec() == page_size,
    {
        let r = PagesCache { pages: Vec::new(), capacity, page_size };
        assert(r@ =~= Seq::<(usize, Seq<u8>)>::empty());
        r
    }

    pub fn capacity(&self) -> (r: usize)
        ensures
            r == self.capacity_spec(),
    {
        self.capacity
    }

    pub fn page_size(&self) -> (r: usize)
        ensures
            r == self.page_size_spec(),
    {
        self.page_size
    }

    /// Number of resident pages.
    pub fn len(&self) -> (r: usize)
        ensures
            r == self@.len(),
    {
        self.pages.len()
    }

    /// Slot of `page_no`, if resident.
    fn find(&self, page_no: usize) -> (r: Option<usize>)
        requires
            self.wf(),
        ensures
            r is None <==> !holds(self@, page_no),
            r matches Some(i) ==> i < self@.len() && i == slot_of(self@, page_no),
    {
        let mut i: usize = 0;
        while i < self.pages.len()
            invariant
                self.wf(),
                i <= self.pages.len(),
                forall|k: int| 0 <= k < i ==> (#[trigger] self@[k]).0 != page_no,
            decreases self.pages.len() - i,
        {
            if self.pages[i].page_no == page_no {
                proof {
                    assert(self@[i as int].0 == page_no);
                    let j = slot_of(self@, page_no);
                    assert(self@[j].0 == page_no);
                    if j != i as int {
                        assert(self@[j].0 != self@[i as int].0);
                    }
                }
                return Some(i);
            }
            assert(self@[i as int].0 != page_no);
            i = i + 1;
        }
        None
    }

    pub fn has_page(&self, page_no: usize) -> (r: bool)
        requires
            self.wf(),
        ensures
            r == holds(self@, page_no),
    {
        self.find(page_no).is_some()
    }
    /// The cached page `page_no`, if resident.
    pub fn get_page(&self, page_no: usize) -> (r: Option<&PageCacheItem>)
        requires
            self.wf(),
        ensures
            r is None <==> !holds(self@, page_no),
            r matches Some(item) ==> item.page_no == page_no && item.data@ == page_of(self@, page_no),
    {
        match self.find(page_no) {
            Some(i) => Some(&self.pages[i]),
            None => None,
        }
    }

    /// A copy of the bytes of page `page_no`, if resident.
    pub fn clone_page(&self, page_no: usize) -> (r: Option<Vec<u8>>)
        requires
            self.wf(),
        ensures
            r is None <==> !holds(self@, page_no),
            r matches Some(v) ==> v@ == page_of(self@, page_no),
    {
        match self.find(page_no) {
            Some(i) => {
                let data = &self.pages[i].data;
                let mut out: Vec<u8> = Vec::with_capacity(data.len());
                let mut k: usize = 0;
                while k < data.len()
                    invariant
                        k <= data.len(),
                        out@ == data@.subrange(0, k as int),
                    decreases data.len() - k,
                {
                    out.push(data[k]);
                    k = k + 1;
                    assert(out@ =~= data@.subrange(0, k as int));
                }
                assert(out@ =~= data@);
                Some(out)
            },
            None => None,
        }
    }

    /// Admits `data` as page `page_no`: a resident page is replaced in place;
    /// otherwise, when the cache is full, the page admitted earliest is evicted
    /// first.
    pub fn add_page(&mut self, page_no: usize, data: Vec<u8>)
        requires
            old(self).wf(),
            data@.len() == old(self).page_size_spec(),
        ensures
            final(self).wf(),
            final(self)@ == inserted(old(self)@, old(self).capacity_spec(), page_no, data@),
            final(self).capacity_spec() == old(self).capacity_spec(),
            final(self).page_size_spec() == old(self).page_size_spec(),
    {
        let ghost before = self@;
        proof {
            lemma_inserted_is_well_kept(
                before,
                self.capacity_spec(),
                self.page_size_spec(),
                page_no,
                data@,
            );
        }
        let item = PageCacheItem { page_no, data };
        match self.find(page_no) {
            Some(i) => {
                self.pages[i] = item;
            },
            None => {
                if self.pages.len() >= self.capacity {
                    self.pages.remove(0);
                }
                self.pages.push(item);
            },
        }
        assert(self@ =~= inserted(before, self.capacity_spec(), page_no, item.data@));
    }

    /// Copies `payload` into resident page `page_no`, starting at `offset`.
    pub fn copy_into_page(&mut self, page_no: usize, offset: usize, payload: &Vec<u8>)
        requires
            old(self).wf(),
            holds(old(self)@, page_no),
            offset + payload@.len() <= old(self).page_size_spec(),
        ensures
            final(self).wf(),
            final(self)@ == written(old(self)@, page_no, offset as nat, payload@),
            final(self).capacity_spec() == old(self).capacity_spec(),
            final(self).page_size_spec() == old(self).page_size_spec(),
    {
        let ghost before = self@;
        let i = self.find(page_no).unwrap();
        let item = self.pages.remove(i);
        let ghost original = item.data@;
        assert(original == page_of(before, page_no));
        assert(original.len() == self.page_size_spec());
        let mut data = item.data;
        let mut k: usize = 0;
        while k < payload.len()
            invariant
                k <= payload.len(),
                offset + payload@.len() <= original.len(),
                offset + payload@.len() <= usize::MAX,
                data@.len() == original.len(),
                forall|j: int|
                    0 <= j < data@.len() ==> #[trigger] data@[j] == if offset <= j < offset + k {
                        payload@[j - offset]
                    } else {
                        original[j]
                    },
            decreases payload.len() - k,
        {
            data[offset + k] = payload[k];
            k = k + 1;
        }
        assert(data@ =~= overwritten(original, offset as nat, payload@));
        self.pages.insert(i, PageCacheItem { page_no, data });
        proof {
            lemma_read_after_write(before, page_no, offset as nat, payload@);
            let after = written(before, page_no, offset as nat, payload@);
            assert(self@ =~= after);
            assert forall|j: int| 0 <= j < after.len() implies (#[trigger] after[j]).1.len()
                == self.page_size_spec() by {
                assert(before[j].1.len() == self.page_size_spec());
            }
            assert forall|a: int, b: int|
                0 <= a < after.len() && 0 <= b < after.len() && a != b implies (#[trigger] after[a]).0
                != (#[trigger] after[b]).0 by {
                assert(after[a].0 == before[a].0);
                assert(after[b].0 == before[b].0);
            }
        }
    }
}

} // verus!
