use vstd::prelude::*;

verus! {

/// Why a page-table operation could not be carried out (its text is
/// `message`).
#[derive(Clone, Copy, PartialEq, Eq, Structural)]
pub enum PageError {
    OutOfMemory,
    AllocationFailed,
    InvalidFrame,
    NotPresent,
}

impl PageError {
    /// The human-readable text of the error.
    pub fn message(&self) -> (s: &'static str)
        ensures
            s@ == self.message_spec(),
    {
        match self {
            PageError::OutOfMemory => "out of memory",
            PageError::AllocationFailed => "allocation failed",
            PageError::InvalidFrame => "invalid frame",
            PageError::NotPresent => "address not mapped",
        }
    }

    /// The text of each error.
    pub open spec fn message_spec(&self) -> Seq<char> {
        match self {
            PageError::OutOfMemory => "out of memory"@,
            PageError::AllocationFailed => "allocation failed"@,
            PageError::InvalidFrame => "invalid frame"@,
            PageError::NotPresent => "address not mapped"@,
        }
    }
}

/// Mask of the bits that `addr` reports: everything but the low nine flag bits.
pub const ENTRY_ADDR_MASK: u64 = 0xFFFF_FFFF_FFFF_FE00;

/// Mask of the bits that a table walk keeps from a present entry to find the next table.
pub const TABLE_ADDR_MASK: u64 = 0xFFFF_FFFF_FFFF_F000;

/// The no-execute bit of an entry.
pub const NX_BIT: u64 = 0x8000_0000_0000_0000;

/// Operations on one page-table entry.
pub trait PageFrame {
    fn addr(&self) -> usize;

    fn present(&self) -> bool;

    fn user_mode(&self) -> bool;

    fn writable(&self) -> bool;

    fn executable(&self) -> bool;

    fn set_addr(&mut self, value: usize);

    fn set_present(&mut self, value: bool);

    fn set_user_mode(&mut self, value: bool);

    fn set_writable(&mut self, value: bool);

    fn set_executable(&mut self, value: bool);
}

/// A raw x86-64 page-table entry: the 64 bits that the MMU reads.
#[derive(Clone, Copy, Debug)]
pub struct PageMapEntry(pub u64);

/// The number 0 or 1 that a flag is stored as.
pub open spec fn bit_of(value: bool) -> u64 {
    if value { 1 } else { 0 }
}

impl PageMapEntry {
    /// An entry with every bit clear, as `Default` gives it.
    pub fn empty() -> (e: PageMapEntry)
        ensures
            e.0 == 0,
    {
        PageMapEntry(0)
    }

    /// The entry whose bits are `bits`.
    pub fn from_raw(bits: u64) -> (e: PageMapEntry)
        ensures
            e.0 == bits,
    {
        PageMapEntry(bits)
    }

    /// The entry's bits.
    pub fn raw(&self) -> (bits: u64)
        ensures
            bits == self.0,
    {
        self.0
    }
}

impl PageFrame for PageMapEntry {
    /// The address part: the entry with its low nine bits cleared.
    fn addr(&self) -> (r: usize)
        ensures
            r == (self.0 & ENTRY_ADDR_MASK) as usize,
    {
        (self.0 & ENTRY_ADDR_MASK) as usize
    }

    /// Bit 0, the present bit.
    fn present(&self) -> (r: bool)
        ensures
            r == (self.0 & 1 == 1),
    {
        self.0 & 1 == 1
    }

    /// Compares bit 1 alone with 1; as written this is never true.
    fn writable(&self) -> (r: bool)
        ensures
            r == (self.0 & 2 == 1),
            !r,
    {
        proof {
            let v = self.0;
            assert(v & 2 != 1) by (bit_vector);
        }
        self.0 & 2 == 1
    }

    /// Compares bit 2 alone with 1; as written this is never true.
    fn user_mode(&self) -> (r: bool)
        ensures
            r == (self.0 & 4 == 1),
            !r,
    {
        proof {
            let v = self.0;
            assert(v & 4 != 1) by (bit_vector);
        }
        self.0 & 4 == 1
    }

    /// True when the no-execute bit (bit 63) is clear.
    fn executable(&self) -> (r: bool)
        ensures
            r == (self.0 & NX_BIT == 0),
    {
        self.0 & NX_BIT == 0
    }

    /// Keeps the low nine bits and takes the rest from `value`.
    fn set_addr(&mut self, value: usize)
        ensures
            final(self).0 == (old(self).0 & 0x1FF) | ((value as u64) & ENTRY_ADDR_MASK),
    {
        self.0 = (self.0 & 0x1FF) | ((value as u64) & ENTRY_ADDR_MASK);
    }

    /// Writes bit 0.
    fn set_present(&mut self, value: bool)
        ensures
            final(self).0 == (old(self).0 & !1u64) | bit_of(value),
    {
        self.0 = (self.0 & !1u64) | (if value { 1u64 } else { 0u64 });
    }

    /// Writes bit 1.
    fn set_writable(&mut self, value: bool)
        ensures
            final(self).0 == (old(self).0 & !2u64) | (bit_of(value) << 1u64),
    {
        self.0 = (self.0 & !2u64) | ((if value { 1u64 } else { 0u64 }) << 1u64);
    }

    /// Writes bit 2.
    fn set_user_mode(&mut self, value: bool)
        ensures
            final(self).0 == (old(self).0 & !4u64) | (bit_of(value) << 2u64),
    {
        self.0 = (self.0 & !4u64) | ((if value { 1u64 } else { 0u64 }) << 2u64);
    }

    /// Clears bit 63 and writes the negation of `value` into bit 2.
    fn set_executable(&mut self, value: bool)
        ensures
            final(self).0 == (old(self).0 & !NX_BIT) | (bit_of(!value) << 2u64),
    {
        self.0 = (self.0 & !NX_BIT) | ((if !value { 1u64 } else { 0u64 }) << 2u64);
    }
}

/// `set_present(v)` then `present()` gives `v`, and the address part is kept.
pub proof fn lemma_present_roundtrip(bits: u64, v: bool)
    ensures
        ((((bits & !1u64) | bit_of(v)) & 1) == 1) == v,
        ((bits & !1u64) | bit_of(v)) & ENTRY_ADDR_MASK == bits & ENTRY_ADDR_MASK,
{
    if v {
        assert((((bits & !1u64) | 1u64) & 1) == 1) by (bit_vector);
        assert(((bits & !1u64) | 1u64) & 0xFFFF_FFFF_FFFF_FE00u64 == bits & 0xFFFF_FFFF_FFFF_FE00u64) by (bit_vector);
    } else {
        assert((((bits & !1u64) | 0u64) & 1) != 1) by (bit_vector);
        assert(((bits & !1u64) | 0u64) & 0xFFFF_FFFF_FFFF_FE00u64 == bits & 0xFFFF_FFFF_FFFF_FE00u64) by (bit_vector);
    }
}

/// `set_addr(a)` then `addr()` gives `a` without its low nine bits, and the
/// nine flag bits (present among them) are kept.
pub proof fn lemma_addr_roundtrip(bits: u64, a: usize)
    ensures
        ((bits & 0x1FF) | ((a as u64) & ENTRY_ADDR_MASK)) & ENTRY_ADDR_MASK == (a as u64) & ENTRY_ADDR_MASK,
        ((bits & 0x1FF) | ((a as u64) & ENTRY_ADDR_MASK)) & 0x1FF == bits & 0x1FF,
{
    let x = a as u64;
    assert(((bits & 0x1FF) | (x & 0xFFFF_FFFF_FFFF_FE00u64)) & 0xFFFF_FFFF_FFFF_FE00u64 == x & 0xFFFF_FFFF_FFFF_FE00u64) by (bit_vector);
    assert(((bits & 0x1FF) | (x & 0xFFFF_FFFF_FFFF_FE00u64)) & 0x1FF == bits & 0x1FF) by (bit_vector);
}

/// `set_writable(v)` and `set_user_mode(v)` store `v` in bit 1 and bit 2 and keep
/// the address part, though `writable()` and `user_mode()` never report it.
pub proof fn lemma_rw_user_bits(bits: u64, v: bool)
    ensures
        ((bits & !2u64) | (bit_of(v) << 1u64)) & 2 == bit_of(v) << 1u64,
        ((bits & !4u64) | (bit_of(v) << 2u64)) & 4 == bit_of(v) << 2u64,
        ((bits & !2u64) | (bit_of(v) << 1u64)) & ENTRY_ADDR_MASK == bits & ENTRY_ADDR_MASK,
        ((bits & !4u64) | (bit_of(v) << 2u64)) & ENTRY_ADDR_MASK == bits & ENTRY_ADDR_MASK,
{
    let b = bit_of(v);
    assert(b <= 1);
    assert(b <= 1 ==> ((bits & !2u64) | (b << 1u64)) & 2 == b << 1u64) by (bit_vector);
    assert(b <= 1 ==> ((bits & !4u64) | (b << 2u64)) & 4 == b << 2u64) by (bit_vector);
    assert(b <= 1 ==> ((bits & !2u64) | (b << 1u64)) & 0xFFFF_FFFF_FFFF_FE00u64 == bits & 0xFFFF_FFFF_FFFF_FE00u64) by (bit_vector);
    assert(b <= 1 ==> ((bits & !4u64) | (b << 2u64)) & 0xFFFF_FFFF_FFFF_FE00u64 == bits & 0xFFFF_FFFF_FFFF_FE00u64) by (bit_vector);
}

/// After `set_executable(v)`, whatever `v`, the no-execute bit is clear, so
/// `executable()` reports true; `!v` is or-ed into bit 2.
pub proof fn lemma_executable_after_set(bits: u64, v: bool)
    ensures
        ((bits & !NX_BIT) | (bit_of(!v) << 2u64)) & NX_BIT == 0,
        ((bits & !NX_BIT) | (bit_of(!v) << 2u64)) & 4 == (bits & 4) | (bit_of(!v) << 2u64),
{
    let b = bit_of(!v);
    assert(b <= 1);
    assert(b <= 1 ==> ((bits & !0x8000_0000_0000_0000u64) | (b << 2u64)) & 0x8000_0000_0000_0000u64 == 0) by (bit_vector);
    assert(b <= 1 ==> ((bits & !0x8000_0000_0000_0000u64) | (b << 2u64)) & 4 == (bits & 4) | (b << 2u64)) by (bit_vector);
}

/// The pool of free physical pages.
///
/// Pages come out in the reverse of the order they went in: the view is the
/// sequence of free pages from the oldest to the newest insertion, and the
/// newest is handed out first. Address 0 is never held.
pub struct Freelist {
    pages: Vec<usize>,
}

impl View for Freelist {
    type V = Seq<usize>;

    closed spec fn view(&self) -> Seq<usize> {
        self.pages@
    }
}

impl Freelist {
    /// No free page has address 0.
    #[verifier::type_invariant]
    closed spec fn wf(&self) -> bool {
        forall|i: int| 0 <= i < self.pages@.len() ==> #[trigger] self.pages@[i] != 0
    }

    /// An empty free list.
    pub fn new() -> (f: Freelist)
        ensures
            f@ == Seq::<usize>::empty(),
    {
        Freelist { pages: Vec::new() }
    }

    /// The number of free pages.
    pub fn len(&self) -> (n: usize)
        ensures
            n == self@.len(),
    {
        self.pages.len()
    }

    /// The most recently inserted free page, the one `alloc_page` hands out next.
    pub fn newest(&self) -> (r: Option<usize>)
        ensures
            r == (if self@.len() == 0 { None::<usize> } else { Some(self@.last()) }),
    {
        if self.pages.len() == 0 {
            None
        } else {
            Some(self.pages[self.pages.len() - 1])
        }
    }

    /// Hands the page at `addr` to the free list, writing into the page's first
    /// word the link to the page that was newest before it (0 when the list
    /// was empty); the page joins memory as a frame if it was not one. A null
    /// address is ignored.
    pub fn insert(&mut self, mem: &mut PhysMem, addr: usize)
        ensures
            final(self)@ == freelist_after_insert(old(self)@, addr),
            final(mem)@ == memory_after_insert(old(self)@, old(mem)@, addr),
            frames_full(final(mem)@),
    {
        proof {
            use_type_invariant(&*self);
            use_type_invariant(&*mem);
            mem.lemma_full();
        }
        if addr != 0 {
            let link: u64 = match self.newest() {
                Some(p) => p as u64,
                None => 0,
            };
            mem.add_frame(addr as u64);
            mem.write_entry(addr as u64, 0, link);
            let mut pages = Vec::new();
            std::mem::swap(&mut pages, &mut self.pages);
            pages.push(addr);
            self.pages = pages;
        }
    }

    /// Takes the most recently inserted free page, or fails with `OutOfMemory`.
    pub fn alloc_page(&mut self) -> (r: Result<usize, PageError>)
        ensures
            (r, final(self)@) == freelist_alloc(old(self)@),
            r matches Ok(page) ==> page != 0,
    {
        proof { use_type_invariant(&*self); }
        let mut pages = Vec::new();
        std::mem::swap(&mut pages, &mut self.pages);
        let top = pages.pop();
        self.pages = pages;
        match top {
            Some(page) => Ok(page),
            None => Err(PageError::OutOfMemory),
        }
    }
}

/// The free list after `insert(addr)`.
pub open spec fn freelist_after_insert(pages: Seq<usize>, addr: usize) -> Seq<usize> {
    if addr == 0 {
        pages
    } else {
        pages.push(addr)
    }
}

/// The link word that a page put on top of the free list `pages` holds: the
/// address of the newest page below it, or 0 when there is none.
pub open spec fn free_link(pages: Seq<usize>) -> u64 {
    if pages.len() == 0 {
        0
    } else {
        pages.last() as u64
    }
}

/// Memory after `insert(addr)` on the free list `pages`: the page at `addr` is
/// a frame whose first word links to the previously newest free page.
pub open spec fn memory_after_insert(pages: Seq<usize>, m: Map<u64, Seq<u64>>, addr: usize) -> Map<u64, Seq<u64>> {
    if addr == 0 {
        m
    } else {
        let m1 = with_frame(m, addr as u64);
        m1.insert(addr as u64, m1[addr as u64].update(0, free_link(pages)))
    }
}

/// A freed page holds the link to the page freed before it: after `insert`
/// the page is a frame whose first word is that link, and every other frame
/// is as it was.
pub proof fn lemma_insert_writes_link(pages: Seq<usize>, m: Map<u64, Seq<u64>>, addr: usize)
    requires
        frames_full(m),
        addr != 0,
    ensures
        memory_after_insert(pages, m, addr).contains_key(addr as u64),
        memory_after_insert(pages, m, addr)[addr as u64][0] == free_link(pages),
        forall|b: u64| b != addr as u64 ==> #[trigger] memory_after_insert(pages, m, addr).contains_key(b) == m.contains_key(b)
            && (m.contains_key(b) ==> memory_after_insert(pages, m, addr)[b] == m[b]),
{
}

/// What `alloc_page` returns, and the free list after it.
pub open spec fn freelist_alloc(pages: Seq<usize>) -> (Result<usize, PageError>, Seq<usize>) {
    if pages.len() == 0 {
        (Err(PageError::OutOfMemory), pages)
    } else {
        (Ok(pages.last()), pages.drop_last())
    }
}

/// Allocation undoes insertion: after inserting a non-null page, `alloc_page`
/// hands back that page and leaves the free list as it was.
pub proof fn lemma_alloc_after_insert(pages: Seq<usize>, addr: usize)
    requires
        addr != 0,
    ensures
        freelist_alloc(freelist_after_insert(pages, addr)) == (
        Ok::<usize, PageError>(addr),
        pages,
        ),
{
    assert(pages.push(addr).drop_last() =~= pages);
}

/// Inserting the null address changes nothing.
pub proof fn lemma_insert_null(pages: Seq<usize>)
    ensures
        freelist_after_insert(pages, 0) == pages,
{
}

/// `alloc_page` fails exactly when the free list is empty, and then changes nothing.
pub proof fn lemma_alloc_fails_iff_empty(pages: Seq<usize>)
    ensures
        freelist_alloc(pages).0 is Err <==> pages.len() == 0,
        freelist_alloc(pages).0 is Err ==> freelist_alloc(pages) == (
        Err::<usize, PageError>(PageError::OutOfMemory),
        pages,
        ),
{
}

/// The number of entries in one page table.
pub const TABLE_ENTRIES: usize = 512;

/// Physical memory as the page-table code sees it: a set of page frames, each
/// holding 512 entries, found by the frame's base address.
///
/// The null address never names a frame. A table address that names no frame
/// is where the walk reports `InvalidFrame`.
pub struct PhysMem {
    bases: Vec<u64>,
    rows: Vec<Vec<u64>>,
}

impl PhysMem {
    #[verifier::type_invariant]
    closed spec fn wf(&self) -> bool {
        &&& self.bases@.len() == self.rows@.len()
        &&& forall|i: int| 0 <= i < self.rows@.len() ==> (#[trigger] self.rows@[i])@.len() == 512
        &&& forall|i: int, j: int|
            0 <= i < self.bases@.len() && 0 <= j < self.bases@.len() && i != j
                ==> #[trigger] self.bases@[i] != #[trigger] self.bases@[j]
        &&& forall|i: int| 0 <= i < self.bases@.len() ==> #[trigger] self.bases@[i] != 0
    }

    closed spec fn index_of(&self, base: u64) -> int {
        choose|i: int| 0 <= i < self.bases@.len() && self.bases@[i] == base
    }

    proof fn lemma_index_of(&self, i: int)
        requires
            self.wf(),
            0 <= i < self.bases@.len(),
        ensures
            self.index_of(self.bases@[i]) == i,
    {
        let b = self.bases@[i];
        assert(exists|k: int| 0 <= k < self.bases@.len() && self.bases@[k] == b);
    }
}

impl View for PhysMem {
    type V = Map<u64, Seq<u64>>;

    /// Each frame's base address mapped to its 512 raw entries.
    closed spec fn view(&self) -> Map<u64, Seq<u64>> {
        Map::new(
            |b: u64| self.bases@.contains(b),
            |b: u64| self.rows@[self.index_of(b)]@,
        )
    }
}

/// Every frame of a memory view holds 512 entries, and none is at the null
/// address.
pub open spec fn frames_full(m: Map<u64, Seq<u64>>) -> bool {
    &&& forall|b: u64| #[trigger] m.contains_key(b) ==> m[b].len() == 512
    &&& !m.contains_key(0)
}

impl PhysMem {
    proof fn lemma_full(&self)
        requires
            self.wf(),
        ensures
            frames_full(self@),
    {
        assert forall|b: u64| #[trigger] self@.contains_key(b) implies self@[b].len() == 512 by {
            let k = choose|k: int| 0 <= k < self.bases@.len() && self.bases@[k] == b;
            self.lemma_index_of(k);
        }
        if self@.contains_key(0) {
            let k = choose|k: int| 0 <= k < self.bases@.len() && self.bases@[k] == 0;
            assert(self.bases@[k] != 0);
        }
    }

    /// Memory with no frames.
    pub fn new() -> (m: PhysMem)
        ensures
            m@ == Map::<u64, Seq<u64>>::empty(),
            frames_full(m@),
    {
        let m = PhysMem { bases: Vec::new(), rows: Vec::new() };
        assert(m@ =~= Map::<u64, Seq<u64>>::empty());
        m
    }

    /// The position of the frame at `base`, if there is one.
    fn find(&self, base: u64) -> (r: Option<usize>)
        ensures
            r is None <==> !self@.contains_key(base),
            r matches Some(i) ==> i < self.bases@.len() && self.bases@[i as int] == base
                && self.index_of(base) == i,
    {
        proof { use_type_invariant(self); }
        let mut i: usize = 0;
        while i < self.bases.len()
            invariant
                self.wf(),
                i <= self.bases@.len(),
                forall|k: int| 0 <= k < i ==> self.bases@[k] != base,
            decreases self.bases@.len() - i,
        {
            if self.bases[i] == base {
                proof { self.lemma_index_of(i as int); }
                return Some(i);
            }
            i = i + 1;
        }
        proof {
            if self.bases@.contains(base) {
                let k = choose|k: int| 0 <= k < self.bases@.len() && self.bases@[k] == base;
                assert(self.bases@[k] == base);
            }
        }
        None
    }

    /// Adds a frame at `base` whose entries are all 0; refuses (returns false
    /// and changes nothing) for the null address and when a frame at `base` is
    /// already there.
    pub fn add_frame(&mut self, base: u64) -> (added: bool)
        ensures
            added == (base != 0 && !old(self)@.contains_key(base)),
            added ==> final(self)@ == old(self)@.insert(base, Seq::new(512, |i: int| 0u64)),
            !added ==> final(self)@ == old(self)@,
            frames_full(final(self)@),
    {
        proof { use_type_invariant(&*self); }
        if base == 0 || self.find(base).is_some() {
            proof { self.lemma_full(); }
            return false;
        }
        let ghost old_self = *self;
        let mut taken = PhysMem::new();
        std::mem::swap(&mut taken, self);
        proof { use_type_invariant(&taken); }
        let PhysMem { mut bases, mut rows } = taken;
        let row: Vec<u64> = vec![0u64; TABLE_ENTRIES];
        bases.push(base);
        rows.push(row);
        assert(row@ =~= Seq::new(512, |i: int| 0u64));
        *self = PhysMem { bases, rows };
        proof {
            use_type_invariant(&*self);
            let n = old_self.bases@.len() as int;
            assert(self.bases@ == old_self.bases@.push(base));
            assert(self.rows@ == old_self.rows@.push(row));
            self.lemma_index_of(n);
            assert(self.bases@[n] == base);
            assert forall|b: u64| #[trigger] self@.contains_key(b) <==> old_self@.insert(base, Seq::new(512, |i: int| 0u64)).contains_key(b) by {
                if old_self.bases@.contains(b) {
                    let k = choose|k: int| 0 <= k < old_self.bases@.len() && old_self.bases@[k] == b;
                    assert(self.bases@[k] == b);
                }
                if self.bases@.contains(b) && b != base {
                    let k = choose|k: int| 0 <= k < self.bases@.len() && self.bases@[k] == b;
                    assert(old_self.bases@[k] == b);
                }
            }
            assert forall|b: u64| #[trigger] old_self@.contains_key(b) implies self@[b] == old_self@[b] by {
                let k = choose|k: int| 0 <= k < old_self.bases@.len() && old_self.bases@[k] == b;
                old_self.lemma_index_of(k);
                self.lemma_index_of(k);
            }
            assert(self@ =~= old_self@.insert(base, Seq::new(512, |i: int| 0u64)));
            self.lemma_full();
        }
        true
    }

    /// The raw entry `idx` of the frame at `base`, or `None` if no frame is there.
    pub fn read_entry(&self, base: u64, idx: usize) -> (r: Option<u64>)
        requires
            idx < 512,
        ensures
            r == (if self@.contains_key(base) { Some(self@[base][idx as int]) } else { None::<u64> }),
            frames_full(self@),
    {
        proof { use_type_invariant(self); self.lemma_full(); }
        match self.find(base) {
            Some(i) => Some(self.rows[i][idx]),
            None => None,
        }
    }

    /// Writes `value` into entry `idx` of the frame at `base`; returns false and
    /// changes nothing if no frame is there.
    pub fn write_entry(&mut self, base: u64, idx: usize, value: u64) -> (written: bool)
        requires
            idx < 512,
        ensures
            written == old(self)@.contains_key(base),
            written ==> final(self)@ == old(self)@.insert(base, old(self)@[base].update(idx as int, value)),
            !written ==> final(self)@ == old(self)@,
            frames_full(final(self)@),
    {
        proof { use_type_invariant(&*self); self.lemma_full(); }
        match self.find(base) {
            None => false,
            Some(i) => {
                let ghost old_self = *self;
                let mut taken = PhysMem::new();
                std::mem::swap(&mut taken, self);
                proof { use_type_invariant(&taken); }
                let PhysMem { bases, mut rows } = taken;
                rows[i][idx] = value;
                *self = PhysMem { bases, rows };
                proof {
                    assert forall|b: u64| #[trigger] self@.contains_key(b) && b != base implies self@[b] == old_self@[b] by {
                        let k = old_self.index_of(b);
                        assert(exists|k: int| 0 <= k < old_self.bases@.len() && old_self.bases@[k] == b);
                        assert(k != i);
                    }
                    assert(self@ =~= old_self@.insert(base, old_self@[base].update(idx as int, value)));
                    use_type_invariant(&*self);
                    self.lemma_full();
                }
                true
            },
        }
    }
}

/// The slot that a walk uses at `level` for the virtual address `addr`:
/// nine bits of the address, starting at bit 12 + 9 * level.
pub open spec fn table_index(addr: usize, level: nat) -> int {
    (((addr as u64) >> ((12 + 9 * level) as u64)) & 0x1FFu64) as int
}

/// The next table that a present entry leads to, without allocating.
pub open spec fn next_table(m: Map<u64, Seq<u64>>, table: u64, addr: usize, level: nat) -> Result<u64, PageError> {
    if table == 0 || !m.contains_key(table) {
        Err(PageError::InvalidFrame)
    } else {
        let e = m[table][table_index(addr, level)];
        if e & 1 == 1 {
            Ok(e & TABLE_ADDR_MASK)
        } else {
            Err(PageError::NotPresent)
        }
    }
}

/// One step of a walk: the next table, the memory and the free list after it.
/// With `allocate`, a missing entry is filled with the raw address of a page
/// taken from the free list, and that page is the next table, with its
/// contents left as they are; a page that memory held no frame for joins it
/// holding what a free page holds (see `with_free_frame`).
pub open spec fn descend_spec(
    m: Map<u64, Seq<u64>>,
    fl: Seq<usize>,
    table: u64,
    addr: usize,
    allocate: bool,
    level: nat,
) -> (Result<u64, PageError>, Map<u64, Seq<u64>>, Seq<usize>) {
    if table == 0 || !m.contains_key(table) {
        (Err(PageError::InvalidFrame), m, fl)
    } else if m[table][table_index(addr, level)] & 1 == 1 {
        (next_table(m, table, addr, level), m, fl)
    } else if !allocate {
        (Err(PageError::NotPresent), m, fl)
    } else if fl.len() == 0 {
        (Err(PageError::OutOfMemory), m, fl)
    } else {
        let page = fl.last() as u64;
        let written = m.insert(table, m[table].update(table_index(addr, level), page));
        (Ok(page), with_free_frame(written, page, fl.drop_last()), fl.drop_last())
    }
}

/// Memory with a frame of zeros added at `page`, unless `page` is null or
/// already a frame.
pub open spec fn with_frame(m: Map<u64, Seq<u64>>, page: u64) -> Map<u64, Seq<u64>> {
    if page == 0 || m.contains_key(page) {
        m
    } else {
        m.insert(page, Seq::new(512, |i: int| 0u64))
    }
}

/// Memory with the free page `page` added as a frame if it is not one: zeros,
/// with the link to the next free page (the newest of `rest`) in word 0.
pub open spec fn with_free_frame(m: Map<u64, Seq<u64>>, page: u64, rest: Seq<usize>) -> Map<u64, Seq<u64>> {
    if page == 0 || m.contains_key(page) {
        m
    } else {
        m.insert(page, Seq::new(512, |i: int| 0u64).update(0, free_link(rest)))
    }
}

/// The entry that `grab` reads at `level`.
pub open spec fn grab_spec(m: Map<u64, Seq<u64>>, table: u64, addr: usize, level: nat) -> Result<PageMapEntry, PageError> {
    if table == 0 || !m.contains_key(table) {
        Err(PageError::InvalidFrame)
    } else {
        Ok(PageMapEntry(m[table][table_index(addr, level)]))
    }
}

/// The raw bits that `poke` writes for `page`: an absent page is written as 0.
pub open spec fn entry_bits(page: Option<PageMapEntry>) -> u64 {
    match page {
        Some(e) => e.0,
        None => 0,
    }
}

/// The memory after `poke`, and whether it succeeded.
pub open spec fn poke_spec(
    m: Map<u64, Seq<u64>>,
    table: u64,
    addr: usize,
    page: Option<PageMapEntry>,
    level: nat,
) -> (Result<(), PageError>, Map<u64, Seq<u64>>) {
    if table == 0 || !m.contains_key(table) {
        (Err(PageError::InvalidFrame), m)
    } else {
        (Ok(()), m.insert(table, m[table].update(table_index(addr, level), entry_bits(page))))
    }
}

/// The level-0 table that the walk from `root` reaches for `addr` through
/// levels 3, 2 and 1, or the first error on the way.
pub open spec fn walk_spec(m: Map<u64, Seq<u64>>, root: u64, addr: usize) -> Result<u64, PageError> {
    match next_table(m, root, addr, 3) {
        Err(e) => Err(e),
        Ok(t3) => match next_table(m, t3, addr, 2) {
            Err(e) => Err(e),
            Ok(t2) => next_table(m, t2, addr, 1),
        },
    }
}

/// What `get_page` returns.
pub open spec fn get_page_spec(m: Map<u64, Seq<u64>>, root: u64, addr: usize) -> Result<PageMapEntry, PageError> {
    match walk_spec(m, root, addr) {
        Err(e) => Err(e),
        Ok(t1) => grab_spec(m, t1, addr, 0),
    }
}

/// What `set_page` returns, with the memory and the free list after it.
pub open spec fn set_page_spec(
    m: Map<u64, Seq<u64>>,
    fl: Seq<usize>,
    root: u64,
    addr: usize,
    page: Option<PageMapEntry>,
    allocate: bool,
) -> (Result<(), PageError>, Map<u64, Seq<u64>>, Seq<usize>) {
    let (r3, m3, f3) = descend_spec(m, fl, root, addr, allocate, 3);
    match r3 {
        Err(e) => (Err(e), m3, f3),
        Ok(t3) => {
            let (r2, m2, f2) = descend_spec(m3, f3, t3, addr, allocate, 2);
            match r2 {
                Err(e) => (Err(e), m2, f2),
                Ok(t2) => {
                    let (r1, m1, f1) = descend_spec(m2, f2, t2, addr, allocate, 1);
                    match r1 {
                        Err(e) => (Err(e), m1, f1),
                        Ok(t1) => {
                            let (r0, m0) = poke_spec(m1, t1, addr, page, 0);
                            (r0, m0, f1)
                        },
                    }
                },
            }
        },
    }
}

/// Operations on a whole address space.
pub trait PageMap {
    fn get_page(&self, mem: &PhysMem, addr: usize) -> Result<PageMapEntry, PageError>;

    fn set_page(
        &self,
        mem: &mut PhysMem,
        freelist: &mut Freelist,
        addr: usize,
        page: Option<PageMapEntry>,
        allocate: bool,
    ) -> Result<(), PageError>;
}

/// A page table, known by the physical address of its frame.
#[derive(Clone, Copy, Debug)]
pub struct PageTable(pub u64);

/// The slot of a table that the walk uses at `level` for `addr`.
fn slot(addr: usize, level: usize) -> (i: usize)
    requires
        level <= 5,
    ensures
        i == table_index(addr, level as nat),
        i < 512,
{
    let shift: u64 = 12 + 9 * (level as u64);
    let a: u64 = addr as u64;
    let i: u64 = (a >> shift) & 0x1FF;
    assert(i <= 0x1FF) by (bit_vector)
        requires
            i == (a >> shift) & 0x1FF;
    i as usize
}

impl PageTable {
    /// The table whose frame is at `addr`.
    pub fn at(addr: u64) -> (t: PageTable)
        ensures
            t.0 == addr,
    {
        PageTable(addr)
    }

    /// The next table for `addr` at `level`, allocating a missing one when asked.
    fn descend(
        &self,
        mem: &mut PhysMem,
        freelist: &mut Freelist,
        addr: usize,
        allocate: bool,
        level: usize,
    ) -> (r: Result<PageTable, PageError>)
        requires
            level <= 5,
        ensures
            ({
                let (sr, sm, sf) = descend_spec(old(mem)@, old(freelist)@, self.0, addr, allocate, level as nat);
                &&& final(mem)@ == sm
                &&& final(freelist)@ == sf
                &&& match r {
                    Ok(t) => sr == Ok::<u64, PageError>(t.0),
                    Err(e) => sr == Err::<u64, PageError>(e),
                }
            }),
    {
        if self.0 == 0 {
            return Err(PageError::InvalidFrame);
        }
        let idx = slot(addr, level);
        let entry = match mem.read_entry(self.0, idx) {
            Some(e) => e,
            None => return Err(PageError::InvalidFrame),
        };
        if entry & 1 == 1 {
            Ok(PageTable(entry & TABLE_ADDR_MASK))
        } else if allocate {
            let page = match freelist.alloc_page() {
                Ok(p) => p,
                Err(e) => return Err(e),
            };
            mem.write_entry(self.0, idx, page as u64);
            let link: u64 = match freelist.newest() {
                Some(p) => p as u64,
                None => 0,
            };
            let ghost before_frame = mem@;
            if mem.add_frame(page as u64) {
                mem.write_entry(page as u64, 0, link);
                assert(mem@ =~= before_frame.insert(page as u64, Seq::new(512, |i: int| 0u64).update(0, link)));
            }
            Ok(PageTable(page as u64))
        } else {
            Err(PageError::NotPresent)
        }
    }

    /// The entry for `addr` in this table at `level`.
    fn grab(&self, mem: &PhysMem, addr: usize, level: usize) -> (r: Result<PageMapEntry, PageError>)
        requires
            level <= 5,
        ensures
            r == grab_spec(mem@, self.0, addr, level as nat),
    {
        if self.0 == 0 {
            return Err(PageError::InvalidFrame);
        }
        let idx = slot(addr, level);
        match mem.read_entry(self.0, idx) {
            Some(e) => Ok(PageMapEntry(e)),
            None => Err(PageError::InvalidFrame),
        }
    }

    /// Writes the entry for `addr` in this table at `level`; `None` clears it.
    fn poke(&self, mem: &mut PhysMem, addr: usize, page: Option<PageMapEntry>, level: usize) -> (r: Result<(), PageError>)
        requires
            level <= 5,
        ensures
            (r, final(mem)@) == poke_spec(old(mem)@, self.0, addr, page, level as nat),
    {
        if self.0 == 0 {
            return Err(PageError::InvalidFrame);
        }
        let idx = slot(addr, level);
        let bits = match page {
            Some(e) => e.0,
            None => 0,
        };
        if mem.write_entry(self.0, idx, bits) {
            Ok(())
        } else {
            Err(PageError::InvalidFrame)
        }
    }

    /// The next table for `addr` at `level`, following present entries only.
    fn lookup(&self, mem: &PhysMem, addr: usize, level: usize) -> (r: Result<PageTable, PageError>)
        requires
            level <= 5,
        ensures
            match r {
                Ok(t) => next_table(mem@, self.0, addr, level as nat) == Ok::<u64, PageError>(t.0),
                Err(e) => next_table(mem@, self.0, addr, level as nat) == Err::<u64, PageError>(e),
            },
    {
        if self.0 == 0 {
            return Err(PageError::InvalidFrame);
        }
        let idx = slot(addr, level);
        match mem.read_entry(self.0, idx) {
            None => Err(PageError::InvalidFrame),
            Some(entry) => {
                if entry & 1 == 1 {
                    Ok(PageTable(entry & TABLE_ADDR_MASK))
                } else {
                    Err(PageError::NotPresent)
                }
            },
        }
    }
}

impl PageMap for PageTable {
    /// The level-0 entry for `addr`, found through levels 3, 2 and 1.
    fn get_page(&self, mem: &PhysMem, addr: usize) -> (r: Result<PageMapEntry, PageError>)
        ensures
            r == get_page_spec(mem@, self.0, addr),
    {
        let pml3 = match self.lookup(mem, addr, 3) {
            Ok(t) => t,
            Err(e) => return Err(e),
        };
        let pml2 = match pml3.lookup(mem, addr, 2) {
            Ok(t) => t,
            Err(e) => return Err(e),
        };
        let pml1 = match pml2.lookup(mem, addr, 1) {
            Ok(t) => t,
            Err(e) => return Err(e),
        };
        pml1.grab(mem, addr, 0)
    }

    /// Writes the level-0 entry for `addr` (cleared for `None`), walking through
    /// levels 3, 2 and 1 and, with `allocate`, filling missing entries with pages
    /// from the free list.
    fn set_page(
        &self,
        mem: &mut PhysMem,
        freelist: &mut Freelist,
        addr: usize,
        page: Option<PageMapEntry>,
        allocate: bool,
    ) -> (r: Result<(), PageError>)
        ensures
            (r, final(mem)@, final(freelist)@) == set_page_spec(old(mem)@, old(freelist)@, self.0, addr, page, allocate),
    {
        let pml3 = match self.descend(mem, freelist, addr, allocate, 3) {
            Ok(t) => t,
            Err(e) => return Err(e),
        };
        let pml2 = match pml3.descend(mem, freelist, addr, allocate, 2) {
            Ok(t) => t,
            Err(e) => return Err(e),
        };
        let pml1 = match pml2.descend(mem, freelist, addr, allocate, 1) {
            Ok(t) => t,
            Err(e) => return Err(e),
        };
        pml1.poke(mem, addr, page, 0)
    }
}

/// The level-0 slot that `set_page` writes for `addr` is none of the slots that
/// the walk for `addr` reads on its way down (as in any page-table tree).
pub open spec fn leaf_slot_off_path(m: Map<u64, Seq<u64>>, root: u64, addr: usize) -> bool {
    match next_table(m, root, addr, 3) {
        Ok(t3) => match next_table(m, t3, addr, 2) {
            Ok(t2) => match next_table(m, t2, addr, 1) {
                Ok(t1) => !(t1 == root && table_index(addr, 0) == table_index(addr, 3))
                    && !(t1 == t3 && table_index(addr, 0) == table_index(addr, 2))
                    && !(t1 == t2 && table_index(addr, 0) == table_index(addr, 1)),
                Err(_) => true,
            },
            Err(_) => true,
        },
        Err(_) => true,
    }
}

/// Reading back what was written: when the walk for `addr` already reaches an
/// existing level-0 table, and the slot written there is not one that the walk
/// itself reads higher up, `set_page` succeeds without
/// touching the free list, and `get_page` then returns the written entry
/// (an all-zero entry for `None`).
pub proof fn lemma_get_after_set(
    m: Map<u64, Seq<u64>>,
    fl: Seq<usize>,
    root: u64,
    addr: usize,
    page: Option<PageMapEntry>,
    allocate: bool,
)
    requires
        frames_full(m),
        walk_spec(m, root, addr) is Ok,
        m.contains_key(walk_spec(m, root, addr)->Ok_0),
        leaf_slot_off_path(m, root, addr),
    ensures
        set_page_spec(m, fl, root, addr, page, allocate).0 == Ok::<(), PageError>(()),
        set_page_spec(m, fl, root, addr, page, allocate).2 == fl,
        get_page_spec(set_page_spec(m, fl, root, addr, page, allocate).1, root, addr)
            == Ok::<PageMapEntry, PageError>(PageMapEntry(entry_bits(page))),
{
    let t3 = next_table(m, root, addr, 3)->Ok_0;
    let t2 = next_table(m, t3, addr, 2)->Ok_0;
    let t1 = next_table(m, t2, addr, 1)->Ok_0;
    let m1 = set_page_spec(m, fl, root, addr, page, allocate).1;
    assert(m1 == m.insert(t1, m[t1].update(table_index(addr, 0), entry_bits(page))));
    assert(0 <= table_index(addr, 3) < 512 && 0 <= table_index(addr, 2) < 512 && 0 <= table_index(addr, 1) < 512
        && 0 <= table_index(addr, 0) < 512) by {
        let a = addr as u64;
        assert((a >> 12u64) & 0x1FFu64 <= 0x1FFu64) by (bit_vector);
        assert((a >> 39u64) & 0x1FFu64 <= 0x1FFu64) by (bit_vector);
        assert((a >> 30u64) & 0x1FFu64 <= 0x1FFu64) by (bit_vector);
        assert((a >> 21u64) & 0x1FFu64 <= 0x1FFu64) by (bit_vector);
    }
    assert(m.contains_key(root) && m.contains_key(t3) && m.contains_key(t2) && m.contains_key(t1));
    assert(m[root].len() == 512 && m[t3].len() == 512 && m[t2].len() == 512 && m[t1].len() == 512);
    assert(leaf_slot_off_path(m, root, addr));
    assert(next_table(m, root, addr, 3) == Ok::<u64, PageError>(t3));
    assert(next_table(m, t3, addr, 2) == Ok::<u64, PageError>(t2));
    assert(next_table(m, t2, addr, 1) == Ok::<u64, PageError>(t1));
    assert(t1 == root ==> table_index(addr, 0) != table_index(addr, 3));
    assert(t1 == t3 ==> table_index(addr, 0) != table_index(addr, 2));
    assert(t1 == t2 ==> table_index(addr, 0) != table_index(addr, 1));
    let i0 = table_index(addr, 0);
    let row = m[t1].update(i0, entry_bits(page));
    assert(m1[t1] == row);
    if root == t1 {
        assert(row[table_index(addr, 3)] == m[t1][table_index(addr, 3)]);
    } else {
        assert(m1[root] == m[root]);
    }
    if t3 == t1 {
        assert(row[table_index(addr, 2)] == m[t1][table_index(addr, 2)]);
    } else {
        assert(m1[t3] == m[t3]);
    }
    if t2 == t1 {
        assert(row[table_index(addr, 1)] == m[t1][table_index(addr, 1)]);
    } else {
        assert(m1[t2] == m[t2]);
    }
    assert(next_table(m1, root, addr, 3) == next_table(m, root, addr, 3));
    assert(next_table(m1, t3, addr, 2) == next_table(m, t3, addr, 2));
    assert(next_table(m1, t2, addr, 1) == next_table(m, t2, addr, 1));
}

/// Whether the walk for `addr` in `m` reads slot `i` of table `t` on its way
/// down (stopping where the walk stops).
pub open spec fn walk_reads_slot(m: Map<u64, Seq<u64>>, root: u64, addr: usize, t: u64, i: int) -> bool {
    ||| (root == t && table_index(addr, 3) == i)
    ||| match next_table(m, root, addr, 3) {
        Err(_) => false,
        Ok(t3) => {
            ||| (t3 == t && table_index(addr, 2) == i)
            ||| match next_table(m, t3, addr, 2) {
                Err(_) => false,
                Ok(t2) => {
                    ||| (t2 == t && table_index(addr, 1) == i)
                    ||| match next_table(m, t2, addr, 1) {
                        Err(_) => false,
                        Ok(t1) => t1 == t && table_index(addr, 0) == i,
                    }
                },
            }
        },
    }
}

proof fn lemma_table_index_bound(addr: usize, level: nat)
    requires
        level <= 5,
    ensures
        0 <= table_index(addr, level) < 512,
{
    let a = addr as u64;
    let sh = (12 + 9 * level) as u64;
    assert((a >> sh) & 0x1FFu64 <= 0x1FFu64) by (bit_vector);
}

/// Writing one slot leaves every read of another slot as it was.
proof fn lemma_step_elsewhere(m: Map<u64, Seq<u64>>, t: u64, i: int, v: u64, table: u64, addr: usize, level: nat)
    requires
        frames_full(m),
        m.contains_key(t),
        0 <= i < 512,
        level <= 3,
        !(table == t && table_index(addr, level) == i),
    ensures
        next_table(m.insert(t, m[t].update(i, v)), table, addr, level) == next_table(m, table, addr, level),
        grab_spec(m.insert(t, m[t].update(i, v)), table, addr, level) == grab_spec(m, table, addr, level),
{
    lemma_table_index_bound(addr, level);
    let m2 = m.insert(t, m[t].update(i, v));
    if table == t {
        assert(m2[table][table_index(addr, level)] == m[table][table_index(addr, level)]);
    }
}

/// A write to a slot that the walk for `addr2` does not read leaves what
/// `get_page` returns for `addr2` as it was.
pub proof fn lemma_get_unchanged_by_write_elsewhere(m: Map<u64, Seq<u64>>, root: u64, addr2: usize, t: u64, i: int, v: u64)
    requires
        frames_full(m),
        m.contains_key(t),
        0 <= i < 512,
        !walk_reads_slot(m, root, addr2, t, i),
    ensures
        get_page_spec(m.insert(t, m[t].update(i, v)), root, addr2) == get_page_spec(m, root, addr2),
{
    let m2 = m.insert(t, m[t].update(i, v));
    lemma_step_elsewhere(m, t, i, v, root, addr2, 3);
    if let Ok(t3) = next_table(m, root, addr2, 3) {
        lemma_step_elsewhere(m, t, i, v, t3, addr2, 2);
        if let Ok(t2) = next_table(m, t3, addr2, 2) {
            lemma_step_elsewhere(m, t, i, v, t2, addr2, 1);
            if let Ok(t1) = next_table(m, t2, addr2, 1) {
                lemma_step_elsewhere(m, t, i, v, t1, addr2, 0);
            }
        }
    }
}

/// The leaf table that the walk for `addr` reaches is, on the walk for
/// `addr2`, never one of the upper tables, and is its leaf table only when
/// `addr2` takes the same slots at levels 3, 2 and 1 (as in a page-table tree,
/// where each table hangs from one slot).
pub open spec fn leaf_reached_only_by_its_path(m: Map<u64, Seq<u64>>, root: u64, addr: usize, addr2: usize) -> bool {
    let t1 = walk_spec(m, root, addr)->Ok_0;
    &&& t1 != root
    &&& match next_table(m, root, addr2, 3) {
        Err(_) => true,
        Ok(b3) => {
            &&& t1 != b3
            &&& match next_table(m, b3, addr2, 2) {
                Err(_) => true,
                Ok(b2) => {
                    &&& t1 != b2
                    &&& match next_table(m, b2, addr2, 1) {
                        Err(_) => true,
                        Ok(b1) => b1 == t1 ==> table_index(addr2, 3) == table_index(addr, 3)
                            && table_index(addr2, 2) == table_index(addr, 2)
                            && table_index(addr2, 1) == table_index(addr, 1),
                    }
                },
            }
        },
    }
}

/// The virtual page number of an address: bits 12 to 47.
pub open spec fn page_number(addr: usize) -> u64 {
    ((addr as u64) >> 12u64) & 0xF_FFFF_FFFFu64
}

proof fn lemma_same_indices_same_page(a: usize, b: usize)
    requires
        table_index(a, 0) == table_index(b, 0),
        table_index(a, 1) == table_index(b, 1),
        table_index(a, 2) == table_index(b, 2),
        table_index(a, 3) == table_index(b, 3),
    ensures
        page_number(a) == page_number(b),
{
    let x = a as u64;
    let y = b as u64;
    assert(((x >> 12u64) & 0x1FFu64) == ((y >> 12u64) & 0x1FFu64)
        && ((x >> 21u64) & 0x1FFu64) == ((y >> 21u64) & 0x1FFu64)
        && ((x >> 30u64) & 0x1FFu64) == ((y >> 30u64) & 0x1FFu64)
        && ((x >> 39u64) & 0x1FFu64) == ((y >> 39u64) & 0x1FFu64)
        ==> ((x >> 12u64) & 0xF_FFFF_FFFFu64) == ((y >> 12u64) & 0xF_FFFF_FFFFu64)) by (bit_vector);
}

/// Other pages stay as they were: when the walk for `addr` already reaches an
/// existing level-0 table that hangs only from its own path, `set_page` for
/// `addr` changes what `get_page` returns for no address in another page.
pub proof fn lemma_set_leaves_other_pages(
    m: Map<u64, Seq<u64>>,
    fl: Seq<usize>,
    root: u64,
    addr: usize,
    page: Option<PageMapEntry>,
    allocate: bool,
    addr2: usize,
)
    requires
        frames_full(m),
        walk_spec(m, root, addr) is Ok,
        m.contains_key(walk_spec(m, root, addr)->Ok_0),
        leaf_slot_off_path(m, root, addr),
        leaf_reached_only_by_its_path(m, root, addr, addr2),
        page_number(addr2) != page_number(addr),
    ensures
        get_page_spec(set_page_spec(m, fl, root, addr, page, allocate).1, root, addr2) == get_page_spec(m, root, addr2),
{
    let t3 = next_table(m, root, addr, 3)->Ok_0;
    let t2 = next_table(m, t3, addr, 2)->Ok_0;
    let t1 = next_table(m, t2, addr, 1)->Ok_0;
    let i0 = table_index(addr, 0);
    lemma_table_index_bound(addr, 0);
    assert(set_page_spec(m, fl, root, addr, page, allocate).1 == m.insert(t1, m[t1].update(i0, entry_bits(page))));
    if walk_reads_slot(m, root, addr2, t1, i0) {
        if let Ok(b3) = next_table(m, root, addr2, 3) {
            if let Ok(b2) = next_table(m, b3, addr2, 2) {
                if let Ok(b1) = next_table(m, b2, addr2, 1) {
                    if b1 == t1 && table_index(addr2, 0) == i0 {
                        lemma_same_indices_same_page(addr, addr2);
                    }
                }
            }
        }
    }
    lemma_get_unchanged_by_write_elsewhere(m, root, addr2, t1, i0, entry_bits(page));
}

/// The slot that a walk step reads and writes is the one the address selects
/// at that level: the nine address bits from bit 12 + 9 * level.
pub proof fn lemma_slot_is_address_bits(addr: usize, level: nat)
    requires
        level <= 5,
    ensures
        table_index(addr, level) == (((addr as u64) >> ((12 + 9 * level) as u64)) & 0x1FFu64) as int,
        0 <= table_index(addr, level) < 512,
{
    lemma_table_index_bound(addr, level);
}

/// A walk step through a present entry leads to the table at that entry's
/// address with exactly its low 12 bits cleared (all 52 upper bits kept), takes
/// nothing from the free list and changes no memory; and it reads the slot that
/// the address selects at that level.
pub proof fn lemma_present_entry_is_followed(
    m: Map<u64, Seq<u64>>,
    fl: Seq<usize>,
    t: u64,
    addr: usize,
    allocate: bool,
    level: nat,
)
    requires
        t != 0,
        m.contains_key(t),
        m[t][(((addr as u64) >> ((12 + 9 * level) as u64)) & 0x1FFu64) as int] & 1 == 1,
    ensures
        ({
            let e = m[t][(((addr as u64) >> ((12 + 9 * level) as u64)) & 0x1FFu64) as int];
            &&& next_table(m, t, addr, level) == Ok::<u64, PageError>(e & 0xFFFF_FFFF_FFFF_F000u64)
            &&& descend_spec(m, fl, t, addr, allocate, level) == (
                Ok::<u64, PageError>(e & 0xFFFF_FFFF_FFFF_F000u64),
                m,
                fl,
            )
            &&& (e & 0xFFFF_FFFF_FFFF_F000u64) & 0xFFF == 0
            &&& (e & 0xFFFF_FFFF_FFFF_F000u64) | (e & 0xFFF) == e
        }),
{
    let e = m[t][(((addr as u64) >> ((12 + 9 * level) as u64)) & 0x1FFu64) as int];
    assert((e & 0xFFFF_FFFF_FFFF_F000u64) & 0xFFF == 0) by (bit_vector);
    assert((e & 0xFFFF_FFFF_FFFF_F000u64) | (e & 0xFFF) == e) by (bit_vector);
}

/// A walk step that finds the selected entry missing and may allocate takes
/// the newest free page, writes its address into exactly that slot of the table
/// it read (every other slot of that table stays as it was) and goes on into
/// that page; without a free page it fails with `OutOfMemory` and changes
/// nothing.
pub proof fn lemma_missing_entry_is_filled(
    m: Map<u64, Seq<u64>>,
    fl: Seq<usize>,
    t: u64,
    addr: usize,
    level: nat,
)
    requires
        frames_full(m),
        level <= 5,
        t != 0,
        m.contains_key(t),
        m[t][(((addr as u64) >> ((12 + 9 * level) as u64)) & 0x1FFu64) as int] & 1 == 0,
    ensures
        fl.len() == 0 ==> descend_spec(m, fl, t, addr, true, level) == (
            Err::<u64, PageError>(PageError::OutOfMemory),
            m,
            fl,
        ),
        fl.len() > 0 ==> {
            let (r, m2, fl2) = descend_spec(m, fl, t, addr, true, level);
            let i = (((addr as u64) >> ((12 + 9 * level) as u64)) & 0x1FFu64) as int;
            &&& r == Ok::<u64, PageError>(fl.last() as u64)
            &&& fl2 == fl.drop_last()
            &&& m2.contains_key(t)
            &&& m2[t] == m[t].update(i, fl.last() as u64)
            &&& forall|j: int| 0 <= j < m[t].len() && j != i ==> #[trigger] m2[t][j] == m[t][j]
            &&& fl.last() != 0 ==> m2.contains_key(fl.last() as u64)
        },
        descend_spec(m, fl, t, addr, false, level) == (Err::<u64, PageError>(PageError::NotPresent), m, fl),
{
    if fl.len() > 0 {
        let i = (((addr as u64) >> ((12 + 9 * level) as u64)) & 0x1FFu64) as int;
        let page = fl.last() as u64;
        let written = m.insert(t, m[t].update(i, page));
        let m2 = descend_spec(m, fl, t, addr, true, level).1;
        assert(table_index(addr, level) == i);
        lemma_table_index_bound(addr, level);
        assert(m2 == with_free_frame(written, page, fl.drop_last()));
        if page != t {
            assert(m2[t] == written[t]);
        }
        assert(m2.contains_key(t));
        assert(m2[t] == m[t].update(i, page));
        assert(descend_spec(m, fl, t, addr, true, level).0 == Ok::<u64, PageError>(page));
        assert(descend_spec(m, fl, t, addr, true, level).2 == fl.drop_last());
        assert forall|j: int| 0 <= j < m[t].len() && j != i implies #[trigger] m2[t][j] == m[t][j] by {}
        if fl.last() != 0 {
            assert(page != 0);
            assert(m2.contains_key(page));
        }
    }
}

/// Without allocation the free list is never touched, and a failed `set_page`
/// leaves memory as it was.
pub proof fn lemma_set_without_allocation(
    m: Map<u64, Seq<u64>>,
    fl: Seq<usize>,
    root: u64,
    addr: usize,
    page: Option<PageMapEntry>,
)
    ensures
        set_page_spec(m, fl, root, addr, page, false).2 == fl,
        set_page_spec(m, fl, root, addr, page, false).0 is Err
            ==> set_page_spec(m, fl, root, addr, page, false).1 == m,
{
}

/// `set_page` takes at most three pages, always from the newest end of the
/// free list, and leaves the rest of it in order.
pub proof fn lemma_set_takes_newest_pages(
    m: Map<u64, Seq<u64>>,
    fl: Seq<usize>,
    root: u64,
    addr: usize,
    page: Option<PageMapEntry>,
    allocate: bool,
)
    ensures
        ({
            let fl2 = set_page_spec(m, fl, root, addr, page, allocate).2;
            &&& fl2.len() <= fl.len()
            &&& fl.len() - fl2.len() <= 3
            &&& fl2 =~= fl.subrange(0, fl2.len() as int)
        }),
{
    let (r3, m3, f3) = descend_spec(m, fl, root, addr, allocate, 3);
    if let Ok(t3) = r3 {
        let (r2, m2, f2) = descend_spec(m3, f3, t3, addr, allocate, 2);
        if let Ok(t2) = r2 {
            let (r1, m1, f1) = descend_spec(m2, f2, t2, addr, allocate, 1);
            assert(f1 =~= fl.subrange(0, f1.len() as int));
        }
    }
}

/// What a region of the boot memory map holds.
#[derive(Clone, Copy, Debug, PartialEq, Eq, Structural)]
pub enum MemoryKind {
    Usable,
    Reserved,
    AcpiReclaimable,
    AcpiNvs,
    BadMemory,
    BootloaderReclaimable,
    KernelAndModules,
    Framebuffer,
}

/// One region of the boot memory map: `len` bytes from `base`.
#[derive(Clone, Copy, Debug)]
pub struct MemoryRegion {
    pub base: u64,
    pub len: u64,
    pub kind: MemoryKind,
}

/// The page size that usable memory is cut into.
pub const PAGE_SIZE: u64 = 4096;

/// How many pages a region of `len` bytes is cut into: one for each multiple
/// of 4096 below `len`.
pub open spec fn page_count(len: u64) -> nat {
    ((len as nat) + 4095) as nat / 4096
}

/// The free list after inserting, in order, the first `k` page addresses
/// `base`, `base + 4096`, ... of a region.
pub open spec fn insert_pages(fl: Seq<usize>, base: u64, k: nat) -> Seq<usize>
    decreases k,
{
    if k == 0 {
        fl
    } else {
        freelist_after_insert(insert_pages(fl, base, (k - 1) as nat), (base + 4096 * (k - 1)) as usize)
    }
}

/// Memory after inserting, in order, the first `k` page addresses of a region
/// into the free list `fl`: each page a frame linking to the page inserted
/// before it.
pub open spec fn insert_pages_memory(fl: Seq<usize>, m: Map<u64, Seq<u64>>, base: u64, k: nat) -> Map<u64, Seq<u64>>
    decreases k,
{
    if k == 0 {
        m
    } else {
        memory_after_insert(
            insert_pages(fl, base, (k - 1) as nat),
            insert_pages_memory(fl, m, base, (k - 1) as nat),
            (base + 4096 * (k - 1)) as usize,
        )
    }
}

/// Memory after `init` has gone through the first `k` regions.
pub open spec fn init_memory_spec(fl: Seq<usize>, m: Map<u64, Seq<u64>>, regions: Seq<MemoryRegion>, k: nat) -> Map<u64, Seq<u64>>
    decreases k,
{
    if k == 0 {
        m
    } else {
        let before = init_memory_spec(fl, m, regions, (k - 1) as nat);
        let r = regions[k - 1];
        if r.kind == MemoryKind::Usable {
            insert_pages_memory(init_spec(fl, regions, (k - 1) as nat), before, r.base, page_count(r.len))
        } else {
            before
        }
    }
}

/// The free list after `init` has gone through the first `k` regions.
pub open spec fn init_spec(fl: Seq<usize>, regions: Seq<MemoryRegion>, k: nat) -> Seq<usize>
    decreases k,
{
    if k == 0 {
        fl
    } else {
        let before = init_spec(fl, regions, (k - 1) as nat);
        let r = regions[k - 1];
        if r.kind == MemoryKind::Usable {
            insert_pages(before, r.base, page_count(r.len))
        } else {
            before
        }
    }
}

/// A region that `init` can cut into pages without an arithmetic overflow and
/// whose page addresses all fit in a `usize`; other kinds of region are skipped.
pub open spec fn region_fits(r: MemoryRegion) -> bool {
    r.kind == MemoryKind::Usable ==> {
        &&& r.base + 4096 * page_count(r.len) <= u64::MAX
        &&& page_count(r.len) > 0 ==> r.base + 4096 * (page_count(r.len) - 1) <= usize::MAX
    }
}

/// Hands every page of every usable region of the memory map to the free
/// list, region by region and from the lowest address up, each page linking
/// in its first word to the page inserted before it.
pub fn init(freelist: &mut Freelist, mem: &mut PhysMem, regions: &[MemoryRegion])
    requires
        forall|i: int| 0 <= i < regions@.len() ==> region_fits(#[trigger] regions@[i]),
    ensures
        final(freelist)@ == init_spec(old(freelist)@, regions@, regions@.len()),
        final(mem)@ == init_memory_spec(old(freelist)@, old(mem)@, regions@, regions@.len()),
{
    let mut i: usize = 0;
    while i < regions.len()
        invariant
            i <= regions@.len(),
            forall|j: int| 0 <= j < regions@.len() ==> region_fits(#[trigger] regions@[j]),
            freelist@ == init_spec(old(freelist)@, regions@, i as nat),
            mem@ == init_memory_spec(old(freelist)@, old(mem)@, regions@, i as nat),
        decreases regions@.len() - i,
    {
        let r = regions[i];
        assert(region_fits(regions@[i as int]));
        if r.kind == MemoryKind::Usable {
            let ghost before = freelist@;
            let ghost before_mem = mem@;
            let ghost n = page_count(r.len);
            let mut base: u64 = r.base;
            let end: u64 = r.base + r.len;
            let ghost mut k: nat = 0;
            assert(r.len <= 4096 * n) by (nonlinear_arith)
                requires
                    n == ((r.len as nat) + 4095) as nat / 4096;
            while base < end
                invariant
                    region_fits(r),
                    r.kind == MemoryKind::Usable,
                    n == page_count(r.len),
                    end == r.base + r.len,
                    r.len <= 4096 * n,
                    k <= n,
                    base == r.base + 4096 * k,
                    freelist@ == insert_pages(before, r.base, k),
                    mem@ == insert_pages_memory(before, before_mem, r.base, k),
                decreases n - k,
            {
                assert(k < n) by (nonlinear_arith)
                    requires
                        r.base + 4096 * k < r.base + r.len,
                        n == ((r.len as nat) + 4095) as nat / 4096;
                assert(base + 4096 <= u64::MAX) by (nonlinear_arith)
                    requires
                        k < n,
                        base == r.base + 4096 * k,
                        r.base + 4096 * n <= u64::MAX;
                assert(base <= usize::MAX) by (nonlinear_arith)
                    requires
                        k < n,
                        base == r.base + 4096 * k,
                        r.base + 4096 * (n - 1) <= usize::MAX;
                freelist.insert(mem, base as usize);
                base = base + PAGE_SIZE;
                proof { k = k + 1; }
            }
            assert(k == n) by (nonlinear_arith)
                requires
                    r.base + 4096 * k >= r.base + r.len,
                    k <= n,
                    n == ((r.len as nat) + 4095) as nat / 4096;
        }
        i = i + 1;
    }
}

/// Every page of a usable region reaches the free list, in ascending order
/// (so the highest page is handed out first); a region starting at address 0
/// loses only its first page, which is the null address.
pub proof fn lemma_region_pages(fl: Seq<usize>, base: u64, k: nat)
    requires
        k > 0 ==> base + 4096 * (k - 1) <= usize::MAX,
    ensures
        base != 0 ==> insert_pages(fl, base, k) =~= fl + Seq::new(k, |i: int| (base + 4096 * i) as usize),
        base == 0 && k > 0 ==> insert_pages(fl, base, k) =~= fl + Seq::new(
            (k - 1) as nat,
            |i: int| (4096 * (i + 1)) as usize,
        ),
    decreases k,
{
    if k > 0 {
        lemma_region_pages(fl, base, (k - 1) as nat);
        let p = (base + 4096 * (k - 1)) as usize;
        if base != 0 {
            assert(p != 0);
            assert(insert_pages(fl, base, k) == insert_pages(fl, base, (k - 1) as nat).push(p));
        } else if k > 1 {
            assert(p != 0);
        } else {
            assert(p == 0);
            assert(insert_pages(fl, base, 0) == fl);
            assert(insert_pages(fl, base, k) == freelist_after_insert(fl, p));
        }
    }
}

/// Cutting regions into pages only ever adds pages: the pages that were free
/// before `init` stay free, in their order, underneath the new ones.
pub proof fn lemma_init_keeps_free_pages(fl: Seq<usize>, regions: Seq<MemoryRegion>, k: nat)
    requires
        k <= regions.len(),
    ensures
        init_spec(fl, regions, k).len() >= fl.len(),
        init_spec(fl, regions, k).subrange(0, fl.len() as int) =~= fl,
    decreases k,
{
    if k > 0 {
        lemma_init_keeps_free_pages(fl, regions, (k - 1) as nat);
        let before = init_spec(fl, regions, (k - 1) as nat);
        let r = regions[k - 1];
        if r.kind == MemoryKind::Usable {
            lemma_insert_pages_extends(before, r.base, page_count(r.len));
            assert(init_spec(fl, regions, k).subrange(0, fl.len() as int) =~= before.subrange(0, fl.len() as int));
        }
    }
}

proof fn lemma_insert_pages_extends(fl: Seq<usize>, base: u64, k: nat)
    ensures
        insert_pages(fl, base, k).len() >= fl.len(),
        insert_pages(fl, base, k).subrange(0, fl.len() as int) =~= fl,
    decreases k,
{
    if k > 0 {
        lemma_insert_pages_extends(fl, base, (k - 1) as nat);
        let before = insert_pages(fl, base, (k - 1) as nat);
        let p = (base + 4096 * (k - 1)) as usize;
        if p != 0 {
            assert(before.push(p).subrange(0, fl.len() as int) =~= before.subrange(0, fl.len() as int));
        }
    }
}

} // verus!
