//! The kernel's view of the active address space: which 4 KiB virtual pages
//! are mapped, to which physical frame, with which flags, and what the
//! mapped memory holds.
//!
//! The hardware walks real page tables through the identity-offset physical
//! map; this model keeps the same information as plain data, so that every
//! decision built on it — ELF loading, user-pointer validation, heap
//! bring-up — can be verified. After each mutation the hardware shell must
//! still invalidate the affected TLB entry.

use vstd::prelude::*;
use vstd::pervasive::VecAdditionalExecFns;

use crate::addr::{page_base, spec_page_base, PAGE_SIZE};
use crate::flags::PageTableFlags;

verus! {

/// One mapped page: virtual page start, backing frame start, permissions,
/// and the 4096 bytes the frame holds.
pub struct MappedPage {
    pub page: u64,
    pub frame: u64,
    pub flags: PageTableFlags,
    pub bytes: Vec<u8>,
}

/// Mathematical state of one mapped page.
#[verifier::ext_equal]
pub ghost struct PageState {
    pub frame: u64,
    pub flags: PageTableFlags,
    pub bytes: Seq<u8>,
}

/// The mathematical state of a `MappedPage` entry.
pub open spec fn entry_state(e: MappedPage) -> PageState {
    PageState { frame: e.frame, flags: e.flags, bytes: e.bytes@ }
}

/// The mapping that a list of entries denotes, as a map from page start to
/// page state.
pub open spec fn pages_map(s: Seq<MappedPage>) -> Map<u64, PageState>
    decreases s.len(),
{
    if s.len() == 0 {
        Map::empty()
    } else {
        pages_map(s.drop_last()).insert(s.last().page, entry_state(s.last()))
    }
}

/// No page appears twice in the entry list.
pub open spec fn unique_pages(s: Seq<MappedPage>) -> bool {
    forall|i: int, j: int| 0 <= i < j < s.len() ==> s[i].page != s[j].page
}

/// A page is in the denoted map exactly when some entry carries it.
pub proof fn lemma_pages_map_contains(s: Seq<MappedPage>, p: u64)
    ensures
        pages_map(s).contains_key(p) <==> exists|i: int| 0 <= i < s.len() && s[i].page == p,
    decreases s.len(),
{
    if s.len() == 0 {
    } else {
        lemma_pages_map_contains(s.drop_last(), p);
        if s.last().page == p {
            assert(s[s.len() - 1].page == p);
        } else if exists|i: int| 0 <= i < s.len() && s[i].page == p {
            let i = choose|i: int| 0 <= i < s.len() && s[i].page == p;
            assert(s.drop_last()[i] == s[i]);
        } else {
            assert(forall|i: int|
                0 <= i < s.drop_last().len() ==> #[trigger] s.drop_last()[i] == s[i]);
        }
    }
}

/// With unique pages, each entry's page maps to that entry's state.
pub proof fn lemma_pages_map_index(s: Seq<MappedPage>, i: int)
    requires
        unique_pages(s),
        0 <= i < s.len(),
    ensures
        pages_map(s).contains_key(s[i].page),
        pages_map(s)[s[i].page] == entry_state(s[i]),
    decreases s.len(),
{
    if i == s.len() - 1 {
    } else {
        assert(forall|k: int| 0 <= k < s.len() - 1 ==> #[trigger] s.drop_last()[k] == s[k]);
        lemma_pages_map_index(s.drop_last(), i);
    }
}

/// Appending a fresh entry inserts its page into the denoted map.
pub proof fn lemma_pages_map_push(s: Seq<MappedPage>, e: MappedPage)
    ensures
        pages_map(s.push(e)) == pages_map(s).insert(e.page, entry_state(e)),
{
    assert(s.push(e).drop_last() =~= s);
    assert(s.push(e).last() == e);
}

/// Replacing entry `i` by one for the same page rewrites that page's state
/// in the denoted map.
pub proof fn lemma_pages_map_update(s: Seq<MappedPage>, i: int, e: MappedPage)
    requires
        unique_pages(s),
        0 <= i < s.len(),
        s[i].page == e.page,
    ensures
        pages_map(s.update(i, e)) =~= pages_map(s).insert(e.page, entry_state(e)),
    decreases s.len(),
{
    let t = s.update(i, e);
    if i == s.len() - 1 {
        assert(t.drop_last() =~= s.drop_last());
        assert(t.last() == e);
    } else {
        assert(forall|k: int| 0 <= k < s.len() - 1 ==> #[trigger] s.drop_last()[k] == s[k]);
        lemma_pages_map_update(s.drop_last(), i, e);
        assert(t.drop_last() =~= s.drop_last().update(i, e));
        assert(t.last() == s.last());
        assert(s.last().page != e.page);
    }
}

/// Removing entry `i` removes its page from the denoted map.
pub proof fn lemma_pages_map_remove(s: Seq<MappedPage>, i: int)
    requires
        unique_pages(s),
        0 <= i < s.len(),
    ensures
        pages_map(s.remove(i)) =~= pages_map(s).remove(s[i].page),
    decreases s.len(),
{
    let t = s.remove(i);
    if i == s.len() - 1 {
        assert(t =~= s.drop_last());
        lemma_pages_map_contains(s.drop_last(), s[i].page);
        assert(forall|k: int| 0 <= k < s.len() - 1 ==> #[trigger] s.drop_last()[k] == s[k]);
        assert(!pages_map(s.drop_last()).contains_key(s[i].page));
    } else {
        assert(forall|k: int| 0 <= k < s.len() - 1 ==> #[trigger] s.drop_last()[k] == s[k]);
        lemma_pages_map_remove(s.drop_last(), i);
        assert(t.drop_last() =~= s.drop_last().remove(i));
        assert(t.last() == s.last());
        assert(s.last().page != s[i].page);
    }
}

/// In a well-formed space, every mapped page is page-aligned and holds one
/// frame of bytes.
pub proof fn lemma_wf_mapped_page_props(s: AddressSpace, p: u64)
    requires
        s.wf(),
        s@.contains_key(p),
    ensures
        s@[p].bytes.len() == PAGE_SIZE,
        p % PAGE_SIZE == 0,
{
    lemma_pages_map_contains(s.entries@, p);
    let i = choose|i: int| 0 <= i < s.entries@.len() && s.entries@[i].page == p;
    lemma_pages_map_index(s.entries@, i);
}

/// Outcome of a page-table walk for one virtual address.
#[derive(Clone, Copy, Debug, PartialEq, Eq, Structural)]
pub enum TranslateResult {
    NotMapped,
    InvalidFrameAddress(u64),
    Mapped { frame: u64, flags: PageTableFlags },
}

/// Failure of `map_to`.
#[derive(Clone, Copy, Debug, PartialEq, Eq, Structural)]
pub enum MapToError {
    FrameAllocationFailed,
    PageAlreadyMapped,
}

/// Failure of `update_flags`.
#[derive(Clone, Copy, Debug, PartialEq, Eq, Structural)]
pub enum FlagUpdateError {
    PageNotMapped,
}

/// Failure of `unmap`.
#[derive(Clone, Copy, Debug, PartialEq, Eq, Structural)]
pub enum UnmapError {
    PageNotMapped,
}

/// The kernel's model of the active address space.
pub struct AddressSpace {
    pub entries: Vec<MappedPage>,
}

impl View for AddressSpace {
    type V = Map<u64, PageState>;

    open spec fn view(&self) -> Map<u64, PageState> {
        pages_map(self.entries@)
    }
}

impl AddressSpace {
    /// Entries are page-aligned, hold exactly one frame of bytes, and no
    /// page is mapped twice.
    pub open spec fn wf(self) -> bool {
        &&& unique_pages(self.entries@)
        &&& forall|i: int|
            0 <= i < self.entries@.len() ==> (#[trigger] self.entries@[i]).page % (PAGE_SIZE as u64)
                == 0
        &&& forall|i: int|
            0 <= i < self.entries@.len() ==> (#[trigger] self.entries@[i]).bytes@.len()
                == PAGE_SIZE
    }

    /// The byte that `vaddr` dereferences to.
    pub open spec fn byte_at(self, vaddr: u64) -> u8 {
        self@[spec_page_base(vaddr)].bytes[(vaddr % (PAGE_SIZE as u64)) as int]
    }

    /// An address space with nothing mapped.
    pub fn new() -> (r: AddressSpace)
        ensures
            r.wf(),
            r@ == Map::<u64, PageState>::empty(),
    {
        AddressSpace { entries: Vec::new() }
    }

    /// Index of the entry mapping `page`, if any.
    fn find_index(&self, page: u64) -> (r: Option<usize>)
        requires
            self.wf(),
        ensures
            match r {
                Some(i) => i < self.entries@.len() && self.entries@[i as int].page == page
                    && self@.contains_key(page),
                None => !self@.contains_key(page),
            },
    {
        proof {
            lemma_pages_map_contains(self.entries@, page);
        }
        let n = self.entries.len();
        let mut i: usize = 0;
        while i < n
            invariant
                self.wf(),
                n == self.entries@.len(),
                0 <= i <= n,
                forall|k: int| 0 <= k < i ==> (#[trigger] self.entries@[k]).page != page,
            decreases n - i,
        {
            if self.entries[i].page == page {
                proof {
                    lemma_pages_map_contains(self.entries@, page);
                }
                return Some(i);
            }
            i = i + 1;
        }
        None
    }

    /// Walks the model page table for `vaddr`: the state of the page
    /// containing it, or `NotMapped`.
    pub fn translate(&self, vaddr: u64) -> (r: TranslateResult)
        requires
            self.wf(),
        ensures
            self@.contains_key(spec_page_base(vaddr)) ==> r == (TranslateResult::Mapped {
                frame: self@[spec_page_base(vaddr)].frame,
                flags: self@[spec_page_base(vaddr)].flags,
            }),
            !self@.contains_key(spec_page_base(vaddr)) ==> r == TranslateResult::NotMapped,
    {
        let page = page_base(vaddr);
        match self.find_index(page) {
            Some(i) => {
                proof {
                    lemma_pages_map_index(self.entries@, i as int);
                }
                let e = &self.entries[i];
                TranslateResult::Mapped { frame: e.frame, flags: e.flags }
            },
            None => TranslateResult::NotMapped,
        }
    }

    /// Maps `page` to `frame` with `flags`. The fresh mapping exposes
    /// whatever the frame held; the model starts it zeroed, which real
    /// frames need not honour.
    pub fn map_to(&mut self, page: u64, frame: u64, flags: PageTableFlags) -> (r: Result<
        (),
        MapToError,
    >)
        requires
            old(self).wf(),
            page % PAGE_SIZE == 0,
        ensures
            final(self).wf(),
            !old(self)@.contains_key(page) ==> {
                &&& r is Ok
                &&& final(self)@ == old(self)@.insert(
                    page,
                    PageState { frame, flags, bytes: zero_page_bytes() },
                )
            },
            old(self)@.contains_key(page) ==> {
                &&& r == Err::<(), MapToError>(MapToError::PageAlreadyMapped)
                &&& *final(self) == *old(self)
            },
    {
        match self.find_index(page) {
            Some(_) => Err(MapToError::PageAlreadyMapped),
            None => {
                let bytes = zero_page();
                let e = MappedPage { page, frame, flags, bytes };
                proof {
                    lemma_pages_map_push(self.entries@, e);
                    lemma_pages_map_contains(self.entries@, page);
                }
                self.entries.push(e);
                Ok(())
            },
        }
    }

    /// Changes the flags of an already mapped page.
    pub fn update_flags(&mut self, page: u64, flags: PageTableFlags) -> (r: Result<
        (),
        FlagUpdateError,
    >)
        requires
            old(self).wf(),
        ensures
            final(self).wf(),
            old(self)@.contains_key(page) ==> {
                &&& r is Ok
                &&& final(self)@ == old(self)@.insert(
                    page,
                    PageState { flags, ..old(self)@[page] },
                )
            },
            !old(self)@.contains_key(page) ==> {
                &&& r == Err::<(), FlagUpdateError>(FlagUpdateError::PageNotMapped)
                &&& *final(self) == *old(self)
            },
    {
        match self.find_index(page) {
            Some(i) => {
                proof {
                    lemma_pages_map_index(self.entries@, i as int);
                }
                let e = &mut self.entries[i];
                e.flags = flags;
                proof {
                    lemma_pages_map_update(old(self).entries@, i as int, self.entries@[i as int]);
                    assert(self.entries@ =~= old(self).entries@.update(
                        i as int,
                        self.entries@[i as int],
                    ));
                }
                Ok(())
            },
            None => Err(FlagUpdateError::PageNotMapped),
        }
    }

    /// Every byte of `[vaddr, vaddr + len)` lies on a mapped page.
    pub open spec fn range_mapped(self, vaddr: u64, len: int) -> bool {
        forall|a: u64|
            vaddr <= a && a < vaddr + len ==> self@.contains_key(#[trigger] spec_page_base(a))
    }

    /// Every byte of `[vaddr, vaddr + len)` lies on a writable page.
    pub open spec fn range_writable(self, vaddr: u64, len: int) -> bool {
        forall|a: u64|
            vaddr <= a && a < vaddr + len ==> self@[#[trigger] spec_page_base(a)].flags.writable
    }

    /// The bytes that `[vaddr, vaddr + len)` dereference to.
    pub open spec fn bytes_at(self, vaddr: u64, len: int) -> Seq<u8> {
        Seq::new(len as nat, |k: int| self.byte_at((vaddr + k) as u64))
    }

    /// Reads the byte behind `vaddr`.
    pub fn read_byte(&self, vaddr: u64) -> (r: u8)
        requires
            self.wf(),
            self@.contains_key(spec_page_base(vaddr)),
        ensures
            r == self.byte_at(vaddr),
    {
        let page = page_base(vaddr);
        match self.find_index(page) {
            Some(i) => {
                proof {
                    lemma_pages_map_index(self.entries@, i as int);
                }
                let off = (vaddr % PAGE_SIZE) as usize;
                self.entries[i].bytes[off]
            },
            None => {
                proof {
                    assert(false);
                }
                0
            },
        }
    }

    /// Writes one byte through the mapping; the page must be mapped
    /// writable.
    pub fn write_byte(&mut self, vaddr: u64, b: u8)
        requires
            old(self).wf(),
            old(self)@.contains_key(spec_page_base(vaddr)),
            old(self)@[spec_page_base(vaddr)].flags.writable,
        ensures
            final(self).wf(),
            final(self)@ == old(self)@.insert(
                spec_page_base(vaddr),
                PageState {
                    bytes: old(self)@[spec_page_base(vaddr)].bytes.update(
                        (vaddr % (PAGE_SIZE as u64)) as int,
                        b,
                    ),
                    ..old(self)@[spec_page_base(vaddr)]
                },
            ),
    {
        let page = page_base(vaddr);
        match self.find_index(page) {
            Some(i) => {
                proof {
                    lemma_pages_map_index(self.entries@, i as int);
                }
                let off = (vaddr % PAGE_SIZE) as usize;
                let e = &mut self.entries[i];
                e.bytes.set(off, b);
                proof {
                    lemma_pages_map_update(old(self).entries@, i as int, self.entries@[i as int]);
                    assert(self.entries@ =~= old(self).entries@.update(
                        i as int,
                        self.entries@[i as int],
                    ));
                }
            },
            None => {
                proof {
                    assert(false);
                }
            },
        }
    }

    /// Copies `data` into the mapping at `vaddr`. Pages covered by the
    /// range must be mapped writable; everything else is untouched.
    pub fn write_bytes(&mut self, vaddr: u64, data: &Vec<u8>)
        requires
            old(self).wf(),
            vaddr + data@.len() <= u64::MAX + 1,
            old(self).range_mapped(vaddr, data@.len() as int),
            old(self).range_writable(vaddr, data@.len() as int),
        ensures
            final(self).wf(),
            final(self)@.dom() == old(self)@.dom(),
            forall|p: u64|
                old(self)@.contains_key(p) ==> {
                    &&& (#[trigger] final(self)@[p]).frame == old(self)@[p].frame
                    &&& final(self)@[p].flags == old(self)@[p].flags
                    &&& final(self)@[p].bytes.len() == old(self)@[p].bytes.len()
                },
            forall|k: int|
                0 <= k < data@.len() ==> final(self).byte_at((vaddr + k) as u64) == data@[k],
            forall|a: u64|
                old(self)@.contains_key(spec_page_base(a)) && !(vaddr <= a && a < vaddr
                    + data@.len()) ==> final(self).byte_at(a) == old(self).byte_at(a),
    {
        let len = data.len();
        let mut i: usize = 0;
        while i < len
            invariant
                self.wf(),
                len == data@.len(),
                vaddr + len <= u64::MAX + 1,
                old(self).range_mapped(vaddr, len as int),
                old(self).range_writable(vaddr, len as int),
                0 <= i <= len,
                self@.dom() == old(self)@.dom(),
                forall|p: u64|
                    old(self)@.contains_key(p) ==> {
                        &&& (#[trigger] self@[p]).frame == old(self)@[p].frame
                        &&& self@[p].flags == old(self)@[p].flags
                        &&& self@[p].bytes.len() == old(self)@[p].bytes.len()
                    },
                forall|k: int| 0 <= k < i ==> self.byte_at((vaddr + k) as u64) == data@[k],
                forall|a: u64|
                    old(self)@.contains_key(spec_page_base(a)) && !(vaddr <= a && a < vaddr + i)
                        ==> self.byte_at(a) == old(self).byte_at(a),
            decreases len - i,
        {
            let a = vaddr + i as u64;
            proof {
                assert(old(self)@.contains_key(spec_page_base(a)));
                assert(old(self)@[spec_page_base(a)].flags.writable);
            }
            let ghost prev = *self;
            let ghost bv = data@[i as int];
            self.write_byte(a, data[i]);
            i = i + 1;
            proof {
                let p = spec_page_base(a);
                let off = (a % (PAGE_SIZE as u64)) as int;
                lemma_wf_mapped_page_props(prev, p);
                let st = PageState { bytes: prev@[p].bytes.update(off, bv), ..prev@[p] };
                assert(self@ == prev@.insert(p, st));
                crate::addr::lemma_page_base_decompose(a);
                assert(a == p + a % (PAGE_SIZE as u64));
                assert(self@.dom() =~= prev@.dom());
                assert forall|q: u64| old(self)@.contains_key(q) implies {
                    &&& (#[trigger] self@[q]).frame == old(self)@[q].frame
                    &&& self@[q].flags == old(self)@[q].flags
                    &&& self@[q].bytes.len() == old(self)@[q].bytes.len()
                } by {
                    if q == p {
                        assert(self@[q] == st);
                        assert(st.frame == prev@[p].frame);
                    } else {
                        assert(self@[q] == prev@[q]);
                    }
                };
                assert forall|k: int| 0 <= k < i implies self.byte_at((vaddr + k) as u64)
                    == data@[k] by {
                    let b = (vaddr + k) as u64;
                    if k + 1 < i {
                        assert(prev.byte_at(b) == data@[k]);
                        if spec_page_base(b) == p {
                            assert(b != a);
                            crate::addr::lemma_page_base_decompose(b);
                            assert(b % (PAGE_SIZE as u64) != a % (PAGE_SIZE as u64));
                            let boff = (b % (PAGE_SIZE as u64)) as int;
                            assert(self@[spec_page_base(b)] == st);
                            assert(st.bytes[boff] == prev@[p].bytes[boff]);
                        } else {
                            assert(self@[spec_page_base(b)] == prev@[spec_page_base(b)]);
                        }
                        assert(self.byte_at(b) == prev.byte_at(b));
                    } else {
                        assert(b == a);
                        assert(self@[p] == st);
                        assert(st.bytes[off] == bv);
                        assert(self.byte_at(b) == bv);
                    }
                };
                assert forall|q: u64|
                    old(self)@.contains_key(spec_page_base(q)) && !(vaddr <= q && q < vaddr
                        + i) implies self.byte_at(q) == old(self).byte_at(q) by {
                    if spec_page_base(q) == p {
                        assert(q != a);
                        crate::addr::lemma_page_base_decompose(q);
                        assert(q % (PAGE_SIZE as u64) != a % (PAGE_SIZE as u64));
                    }
                    assert(self.byte_at(q) == prev.byte_at(q));
                };
            }
        }
    }

    /// Reads `len` bytes starting at `vaddr` out of the mapping.
    pub fn read_bytes(&self, vaddr: u64, len: usize) -> (r: Vec<u8>)
        requires
            self.wf(),
            vaddr + len <= u64::MAX + 1,
            self.range_mapped(vaddr, len as int),
        ensures
            r@ == self.bytes_at(vaddr, len as int),
    {
        let mut v: Vec<u8> = Vec::new();
        let mut i: usize = 0;
        while i < len
            invariant
                self.wf(),
                vaddr + len <= u64::MAX + 1,
                self.range_mapped(vaddr, len as int),
                0 <= i <= len,
                v@.len() == i,
                forall|k: int| 0 <= k < i ==> v@[k] == self.byte_at((vaddr + k) as u64),
            decreases len - i,
        {
            let a = vaddr + i as u64;
            proof {
                assert(self@.contains_key(spec_page_base(a)));
            }
            v.push(self.read_byte(a));
            i = i + 1;
        }
        proof {
            assert(v@ =~= self.bytes_at(vaddr, len as int));
        }
        v
    }

    /// Unmaps `page`, returning the frame that backed it. The caller owns
    /// the frame again.
    pub fn unmap(&mut self, page: u64) -> (r: Result<u64, UnmapError>)
        requires
            old(self).wf(),
        ensures
            final(self).wf(),
            old(self)@.contains_key(page) ==> {
                &&& r == Ok::<u64, UnmapError>(old(self)@[page].frame)
                &&& final(self)@ == old(self)@.remove(page)
            },
            !old(self)@.contains_key(page) ==> {
                &&& r == Err::<u64, UnmapError>(UnmapError::PageNotMapped)
                &&& *final(self) == *old(self)
            },
    {
        match self.find_index(page) {
            Some(i) => {
                proof {
                    lemma_pages_map_index(self.entries@, i as int);
                    lemma_pages_map_remove(self.entries@, i as int);
                }
                let e = self.entries.remove(i);
                Ok(e.frame)
            },
            None => Err(UnmapError::PageNotMapped),
        }
    }
}

/// 4096 zero bytes: what the model puts behind a freshly mapped page.
pub open spec fn zero_page_bytes() -> Seq<u8> {
    Seq::new(PAGE_SIZE as nat, |i: int| 0u8)
}

/// Builds one zeroed page of bytes.
fn zero_page() -> (r: Vec<u8>)
    ensures
        r@ == zero_page_bytes(),
{
    let mut v: Vec<u8> = Vec::new();
    let mut i: u64 = 0;
    while i < PAGE_SIZE
        invariant
            0 <= i <= PAGE_SIZE,
            v@.len() == i,
            forall|k: int| 0 <= k < i ==> v@[k] == 0u8,
        decreases PAGE_SIZE - i,
    {
        v.push(0u8);
        i = i + 1;
    }
    proof {
        assert(v@ =~= zero_page_bytes());
    }
    v
}

} // verus!
