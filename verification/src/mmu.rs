use vstd::prelude::*;
use rustc_hash::FxHashMap;
use std::collections::VecDeque;
use crate::backing::{fx_contains, fx_get, fx_get_mut, fx_insert, fx_new, random_u32};
use crate::simulator::SimErr;

verus! {

/// Size of physical pages allocated to programs
pub const PAGE_SIZE: usize = 4096;

/// Number of entries in page-table levels. The ratio has an inverse relation-ship to page-sizes
pub const PAGE_TABLE_ENTRIES: usize = PAGE_SIZE / 4;

/// Stall-time in cycles if an access to Ram occurs
pub const RAM_STALL: usize = 100;

/// Stall-time in cycles if an access to L1 Cache occurs
pub const L1_CACHE_STALL: usize = 10;

/// Number of sets in the cache
pub const CACHE_SETS: usize = 32;

/// Number of lines in a cache set
pub const CACHE_WAYS: usize = 4;

/// Number of bytes in a cache line
pub const LINE_SIZE: usize = 64;

/// Number of page-aligned physical addresses
pub const PHYS_PAGES: u32 = 0x10_0000;

/// Wrapper around virtual addresses
#[derive(Debug, Default, Clone, Copy, Eq, Hash, PartialEq, Structural)]
pub struct VAddr(pub u32);

/// Wrapper around physical addresses
#[derive(Debug, Clone, Copy, Eq, Hash, PartialEq, Structural)]
pub struct PAddr(pub u32);

/// Permission bits as represented on the page tables
#[non_exhaustive]
#[derive(Debug, Clone, Copy)]
pub struct Perms;

impl Perms {
    pub const UNSET: u8 = 0;

    pub const EXEC: u8 = 1;

    pub const WRITE: u8 = 2;

    pub const READ: u8 = 4;
}

/// Index into the first level of the page table: bits 31..22.
pub open spec fn l1_index(a: u32) -> int {
    ((a & 0xffc0_0000) >> 22) as int
}

/// Index into the second level of the page table: bits 21..12.
pub open spec fn l2_index(a: u32) -> int {
    ((a & 0x003f_f000) >> 12) as int
}

/// The address of the page that holds `a`.
pub open spec fn page_base(a: u32) -> u32 {
    a & 0xffff_f000
}

/// The position of `a` inside its page: bits 11..0.
pub open spec fn page_offset(a: u32) -> u32 {
    a & 0xfff
}

/// The address of the cache line that holds `a`.
pub open spec fn line_base(a: u32) -> u32 {
    a & 0xffff_ffc0
}

/// The position of `a` inside its cache line: bits 5..0.
pub open spec fn line_offset(a: u32) -> u32 {
    a & 0x3f
}

/// The cache set that `a` falls into: bits 10..6.
pub open spec fn set_index(a: u32) -> u32 {
    (a & 0x7c0) >> 6
}

/// The tag under which the line of `a` is cached: bits 31..11.
pub open spec fn tag_of(a: u32) -> u32 {
    a >> 11
}

/// The address of the line that is cached in set `set` under tag `tag`.
pub open spec fn line_addr(tag: u32, set: u32) -> u32 {
    (tag << 11) | (set << 6)
}

/// `page` with the bytes from `off` on replaced by `data`.
pub open spec fn splice(page: Seq<u8>, off: int, data: Seq<u8>) -> Seq<u8> {
    Seq::new(
        page.len(),
        |i: int|
            if off <= i < off + data.len() {
                data[i - off]
            } else {
                page[i]
            },
    )
}

/// `n` zero bytes.
pub open spec fn zeros(n: nat) -> Seq<u8> {
    Seq::new(n, |i: int| 0u8)
}

/// `lru` with `way` moved to its tail; `lru` itself where it does not hold `way`.
pub open spec fn touched(lru: Seq<u32>, way: u32) -> Seq<u32> {
    if lru.len() > 0 && lru[0] == way {
        lru.remove(0).push(way)
    } else if lru.len() > 1 && lru[1] == way {
        lru.remove(1).push(way)
    } else if lru.len() > 2 && lru[2] == way {
        lru.remove(2).push(way)
    } else if lru.len() > 3 && lru[3] == way {
        lru.remove(3).push(way)
    } else {
        lru
    }
}

/// The ways of a set, each once, in some order.
pub open spec fn is_way_order(lru: Seq<u32>) -> bool {
    &&& lru.len() == CACHE_WAYS
    &&& forall|i: int| 0 <= i < lru.len() ==> #[trigger] lru[i] < CACHE_WAYS
    &&& forall|i: int, j: int| 0 <= i < j < lru.len() ==> lru[i] != lru[j]
}

proof fn lemma_addr_fields(a: u32)
    by (bit_vector)
    ensures
        (a & 0xffc0_0000) >> 22 < 1024,
        (a & 0x003f_f000) >> 12 < 1024,
        a & 0xfff < 4096,
        a & 0x3f < 64,
        (a & 0x7c0) >> 6 < 32,
        a >> 11 < 0x20_0000,
        ((a >> 11) << 11) | (((a & 0x7c0) >> 6) << 6) == a & 0xffff_ffc0,
        (a & 0xffff_ffc0) & 0xffff_f000 == a & 0xffff_f000,
        ((a & 0xffff_ffc0) & 0xfff) + (a & 0x3f) == a & 0xfff,
        ((a & 0xffff_ffc0) & 0xfff) + 64 <= 4096,
        ((a & 0xffff_ffc0) & 0xfff) % 64 == 0,
        (a & 0xffff_f000) & 0xfff == 0,
        ((a & 0xffff_f000) | (a & 0xfff)) == a,
{
}

proof fn lemma_entry_fields(page: u32, perms: u8, asked: u8, a: u32)
    by (bit_vector)
    requires
        page & 0xfff == 0,
    ensures
        (page | perms as u32) & 0xffff_f000 == page,
        ((page | perms as u32) & asked as u32 == asked as u32) <==> (perms & asked == asked),
        (page | (a & 0xfff)) & 0xffff_f000 == page,
        (page | (a & 0xfff)) & 0xfff == a & 0xfff,
        (page | perms as u32) != 0 <==> (page != 0 || perms != 0),
{
}

proof fn lemma_line_fields(tag: u32, set: u32, a: u32)
    by (bit_vector)
    requires
        tag < 0x20_0000,
        set < 32,
    ensures
        ((tag << 11) | (set << 6)) == (a & 0xffff_ffc0) <==> (tag == a >> 11 && set == (a & 0x7c0)
            >> 6),
        ((tag << 11) | (set << 6)) & 0x3f == 0,
        (((tag << 11) | (set << 6)) & 0xfff) + 64 <= 4096,
        (((tag << 11) | (set << 6)) & 0xfff) % 64 == 0,
        (((tag << 11) | (set << 6)) & 0xffff_f000) == (a & 0xffff_f000) && ((tag << 11) | (set
            << 6)) != (a & 0xffff_ffc0) ==> (((tag << 11) | (set << 6)) & 0xfff) != ((a
            & 0xffff_ffc0) & 0xfff),
{
}

proof fn lemma_page_number(j: u32, k: u32)
    by (bit_vector)
    ensures
        j < 0x10_0000 ==> (j << 12) & 0xfff == 0 && (j << 12) >> 12 == j,
        j < 0x10_0000 && j != 0 ==> j << 12 != 0,
        j == 0 ==> j << 12 == 0,
        k >> 12 < 0x10_0000,
        k & 0xfff == 0 ==> (k >> 12) << 12 == k,
        k & 0xfff == 0 && k != 0 ==> k >> 12 != 0,
{
}

/// Represents a cache-line that contains 16 DWords of memory
#[derive(Debug, Clone)]
pub struct CacheLine {
    /// Bit used to determine if the data in this cacheline is valid or has been invalidated
    pub is_valid: bool,
    /// 21 tag bits
    pub tag: u32,
    /// Data-backing for 16-Dword entries in a cacheline
    pub data: Vec<u8>,
}

/// What a cache line holds.
pub struct LineView {
    pub is_valid: bool,
    pub tag: u32,
    pub data: Seq<u8>,
}

impl View for CacheLine {
    type V = LineView;

    open spec fn view(&self) -> LineView {
        LineView { is_valid: self.is_valid, tag: self.tag, data: self.data@ }
    }
}

impl LineView {
    /// An invalidated line of zero bytes.
    pub open spec fn empty() -> LineView {
        LineView { is_valid: false, tag: 0, data: zeros(LINE_SIZE as nat) }
    }
}

/// A vector of `n` zero bytes.
pub fn zero_bytes(n: usize) -> (v: Vec<u8>)
    ensures
        v@ == zeros(n as nat),
{
    let mut v: Vec<u8> = Vec::new();
    let mut i: usize = 0;
    while i < n
        invariant
            i <= n,
            v@ == zeros(i as nat),
        decreases n - i,
    {
        v.push(0u8);
        i += 1;
        assert(v@ =~= zeros(i as nat));
    }
    v
}

impl Default for CacheLine {
    /// Empty invalidated cacheline
    fn default() -> (line: Self)
        ensures
            line@ == LineView::empty(),
    {
        Self { is_valid: false, tag: 0, data: zero_bytes(LINE_SIZE) }
    }
}

#[derive(Debug, Clone)]
/// This takes care of managing memory and related structures such as caches or page-tables
pub struct Mmu {
    /// Since we don't just want to allocate 2**32 bytes of memory, we use a hashmap to pull pages
    /// out of memory after getting the correct physical address through translation. The key is
    /// the physical address of the page.
    pub mem: FxHashMap<u32, Vec<u8>>,
    /// Page table that is used to translate virtual addresses into physical addresses and keep
    /// track of mapped memory
    /// Address Decoding: [ L1:10 ][ L2:10 ][ offset:12 ]
    /// .0 - EXEC  Permission
    /// .1 - WRITE Permission
    /// .2 - READ  Permission
    pub page_table: Vec<Option<[PAddr; PAGE_TABLE_ENTRIES]>>,
    /// Memory loads will attempt to find data in caches first before resolving to retrieving them
    /// from ram
    pub cache: Vec<CacheLine>,
    /// Least-recently-used queue that is used for cache-eviction algorithm
    pub lru_queue: VecDeque<u32>,
    /// Used to enable/disable caching
    pub cache_enabled: bool,
}

/// The state of the memory management unit as mathematical values.
#[verifier::ext_equal]
pub struct MmuView {
    /// Physical memory: the bytes of each allocated page, by the page's address.
    pub mem: Map<u32, Seq<u8>>,
    /// The page table: for each first-level index the second-level table, if allocated.
    pub table: Seq<Option<Seq<PAddr>>>,
    /// The cache lines, four to a set, set after set.
    pub cache: Seq<LineView>,
    /// The ways in the order in which they are evicted.
    pub lru: Seq<u32>,
    pub cache_enabled: bool,
}

impl View for Mmu {
    type V = MmuView;

    open spec fn view(&self) -> MmuView {
        MmuView {
            mem: self.mem@.map_values(|p: Vec<u8>| p@),
            table: self.page_table@.map_values(
                |t: Option<[PAddr; PAGE_TABLE_ENTRIES]>|
                    match t {
                        Some(a) => Some(a@),
                        None => None,
                    },
            ),
            cache: self.cache@.map_values(|l: CacheLine| l@),
            lru: self.lru_queue@,
            cache_enabled: self.cache_enabled,
        }
    }
}

impl MmuView {
    /// No page mapped, no page allocated, an empty cache.
    pub open spec fn initial() -> MmuView {
        MmuView {
            mem: Map::empty(),
            table: Seq::new(PAGE_TABLE_ENTRIES as nat, |i: int| None),
            cache: Seq::new((CACHE_SETS * CACHE_WAYS) as nat, |i: int| LineView::empty()),
            lru: seq![0u32, 1u32, 2u32, 3u32],
            cache_enabled: true,
        }
    }

    /// The page-table entry for the page of `v`; `None` where the first level
    /// has no table for it.
    pub open spec fn entry(self, v: u32) -> Option<u32> {
        match self.table[l1_index(v)] {
            Some(t) => Some(t[l2_index(v)].0),
            None => None,
        }
    }

    /// The page-table entry at second-level index `j` under first-level index
    /// `i`; zero where the first level has no table there.
    pub open spec fn slot(self, i: int, j: int) -> u32 {
        match self.table[i] {
            Some(t) => t[j].0,
            None => 0,
        }
    }

    /// The shape that every operation keeps: the tables and the cache have
    /// their sizes, the eviction order holds each way once, every allocated
    /// page is page-aligned and 4096 bytes long, every nonzero page-table
    /// entry points to an allocated page, and no two of them to the same one.
    pub open spec fn wf(self) -> bool {
        &&& self.table.len() == PAGE_TABLE_ENTRIES
        &&& forall|i: int|
            0 <= i < self.table.len() && (#[trigger] self.table[i]) is Some
                ==> self.table[i]->Some_0.len() == PAGE_TABLE_ENTRIES
        &&& self.cache.len() == CACHE_SETS * CACHE_WAYS
        &&& forall|i: int|
            0 <= i < self.cache.len() ==> (#[trigger] self.cache[i]).data.len() == LINE_SIZE
                && self.cache[i].tag < 0x20_0000
        &&& is_way_order(self.lru)
        &&& forall|k: u32| #[trigger]
            self.mem.contains_key(k) ==> page_offset(k) == 0 && self.mem[k].len() == PAGE_SIZE
        &&& forall|i: int, j: int|
            0 <= i < PAGE_TABLE_ENTRIES && 0 <= j < PAGE_TABLE_ENTRIES && #[trigger] self.slot(i, j)
                != 0 ==> self.mem.contains_key(page_base(self.slot(i, j)))
        &&& forall|i: int, j: int, k: int, l: int|
            0 <= i < PAGE_TABLE_ENTRIES && 0 <= j < PAGE_TABLE_ENTRIES && 0 <= k
                < PAGE_TABLE_ENTRIES && 0 <= l < PAGE_TABLE_ENTRIES && #[trigger] self.slot(i, j)
                != 0 && #[trigger] self.slot(k, l) != 0 && page_base(self.slot(i, j)) == page_base(
                self.slot(k, l),
            ) ==> i == k && j == l
    }

    /// The result of a page-table walk for `v` that asks for `perms`.
    pub open spec fn translate(self, v: u32, perms: u8) -> Result<PAddr, SimErr> {
        match self.entry(v) {
            None => Err(SimErr::AddrTranslation),
            Some(e) => if e & perms as u32 != perms as u32 {
                Err(SimErr::Permission)
            } else {
                Ok(PAddr(page_base(e) | page_offset(v)))
            },
        }
    }

    /// The page of `v` can be mapped: its entry is missing or zero.
    pub open spec fn mappable(self, v: u32) -> bool {
        self.entry(v) is None || self.entry(v) == Some(0u32)
    }

    /// `page` is the address of a page that can be allocated: it is not
    /// allocated yet, and it is not the page at address zero. That page is
    /// never handed out: mapped with no permission it would give the entry
    /// zero, which stands for a page that is not mapped.
    pub open spec fn fresh_page(self, page: u32) -> bool {
        page_offset(page) == 0 && page != 0 && !self.mem.contains_key(page)
    }

    /// The first page from page number `from` up to page number `upto` that
    /// can be allocated.
    pub open spec fn first_free(self, from: int, upto: int) -> Option<u32>
        decreases upto - from,
    {
        if from >= upto {
            None
        } else if from != 0 && !self.mem.contains_key((from as u32) << 12) {
            Some((from as u32) << 12)
        } else {
            self.first_free(from + 1, upto)
        }
    }

    /// The page that an allocation takes where `seed` was drawn: the page
    /// of `seed` if it is free, else the next free one above it, else the
    /// first free one. `None` where no page is left.
    pub open spec fn chosen_page(self, seed: u32) -> Option<u32> {
        let start = (seed >> 12) as int;
        match self.first_free(start, PHYS_PAGES as int) {
            Some(page) => Some(page),
            None => self.first_free(0, start),
        }
    }

    /// No physical page is left to allocate.
    pub open spec fn exhausted(self) -> bool {
        forall|page: u32|
            page_offset(page) == 0 && page != 0 ==> #[trigger] self.mem.contains_key(page)
    }

    /// The state after the page of `v` was mapped to the new zero page `page`
    /// with permissions `perms`.
    pub open spec fn with_mapping(self, v: u32, perms: u8, page: u32) -> MmuView {
        let dir = match self.table[l1_index(v)] {
            Some(t) => t,
            None => Seq::new(PAGE_TABLE_ENTRIES as nat, |i: int| PAddr(0)),
        };
        MmuView {
            table: self.table.update(
                l1_index(v),
                Some(dir.update(l2_index(v), PAddr(page | perms as u32))),
            ),
            mem: self.mem.insert(page, zeros(PAGE_SIZE as nat)),
            ..self
        }
    }

    /// The line in way `way` of the set of `a`.
    pub open spec fn line(self, a: u32, way: int) -> LineView {
        self.cache[set_index(a) * CACHE_WAYS + way]
    }

    /// Way `way` of the set of `a` holds the line of `a`.
    pub open spec fn holds(self, a: u32, way: int) -> bool {
        self.line(a, way).is_valid && self.line(a, way).tag == tag_of(a)
    }

    /// The first way that holds the line of `a`.
    pub open spec fn hit_way(self, a: u32) -> Option<int> {
        if self.holds(a, 0) {
            Some(0)
        } else if self.holds(a, 1) {
            Some(1)
        } else if self.holds(a, 2) {
            Some(2)
        } else if self.holds(a, 3) {
            Some(3)
        } else {
            None
        }
    }

    /// The first way of the set of `a` whose line is not valid.
    pub open spec fn free_way(self, a: u32) -> Option<int> {
        if !self.line(a, 0).is_valid {
            Some(0)
        } else if !self.line(a, 1).is_valid {
            Some(1)
        } else if !self.line(a, 2).is_valid {
            Some(2)
        } else if !self.line(a, 3).is_valid {
            Some(3)
        } else {
            None
        }
    }

    /// Caching is on and the line of `a` is in the cache.
    pub open spec fn cached(self, a: u32) -> bool {
        self.cache_enabled && self.hit_way(a) is Some
    }

    /// The page that holds `a` is allocated.
    pub open spec fn backed(self, a: u32) -> bool {
        self.mem.contains_key(page_base(a))
    }

    /// The `len` bytes of physical memory from `a` on.
    pub open spec fn ram(self, a: u32, len: int) -> Seq<u8> {
        self.mem[page_base(a)].subrange(page_offset(a) as int, page_offset(a) + len)
    }

    /// A load of `len` bytes at `a` from physical memory.
    pub open spec fn ram_read(self, a: u32, len: int) -> Result<Seq<u8>, SimErr> {
        if self.backed(a) {
            Ok(self.ram(a, len))
        } else {
            Err(SimErr::AddrTranslation)
        }
    }

    /// The state after the line of `a` was loaded from memory into way `way`.
    pub open spec fn filled(self, a: u32, way: int) -> MmuView {
        MmuView {
            cache: self.cache.update(
                set_index(a) * CACHE_WAYS + way,
                LineView {
                    is_valid: true,
                    tag: tag_of(a),
                    data: self.ram(line_base(a), LINE_SIZE as int),
                },
            ),
            ..self
        }
    }

    /// A load of `len` bytes at `a` through the cache: the state afterwards,
    /// and the bytes with the hit flag. On a miss the line is loaded into the
    /// first way that is not valid, else into the way at the head of the
    /// eviction order. The way that was hit or filled moves to the tail of
    /// that order.
    pub open spec fn cache_read(self, a: u32, len: int) -> (MmuView, Result<(Seq<u8>, bool), SimErr>) {
        let lo = line_offset(a) as int;
        match self.hit_way(a) {
            Some(w) => (
                MmuView { lru: touched(self.lru, w as u32), ..self },
                Ok((self.line(a, w).data.subrange(lo, lo + len), true)),
            ),
            None => match self.free_way(a) {
                Some(w) => if self.backed(a) {
                    (
                        MmuView { lru: touched(self.lru, w as u32), ..self.filled(a, w) },
                        Ok((self.ram(a, len), false)),
                    )
                } else {
                    (self, Err(SimErr::AddrTranslation))
                },
                None => {
                    let w = self.lru[0];
                    let turned = MmuView { lru: touched(self.lru, w), ..self };
                    if self.backed(a) {
                        (turned.filled(a, w as int), Ok((self.ram(a, len), false)))
                    } else {
                        (turned, Err(SimErr::AddrTranslation))
                    }
                },
            },
        }
    }

    /// A load of `len` bytes at the virtual address `v`.
    pub open spec fn read(self, v: u32, len: int) -> (MmuView, Result<(Seq<u8>, bool), SimErr>) {
        match self.translate(v, Perms::READ) {
            Err(e) => (self, Err(e)),
            Ok(p) => if self.cache_enabled {
                self.cache_read(p.0, len)
            } else {
                match self.ram_read(p.0, len) {
                    Ok(bytes) => (self, Ok((bytes, false))),
                    Err(e) => (self, Err(e)),
                }
            },
        }
    }

    /// A load of `len` bytes at the virtual address `v` that leaves the cache alone.
    pub open spec fn peek(self, v: u32, len: int) -> Result<Seq<u8>, SimErr> {
        match self.translate(v, Perms::READ) {
            Err(e) => Err(e),
            Ok(p) => self.ram_read(p.0, len),
        }
    }

    /// The state after the lines that cache `a` in the first `n` ways of its
    /// set were invalidated.
    pub open spec fn invalidated_ways(self, a: u32, n: int) -> MmuView {
        MmuView {
            cache: Seq::new(
                self.cache.len(),
                |i: int|
                    if set_index(a) * CACHE_WAYS <= i < set_index(a) * CACHE_WAYS + n
                        && self.cache[i].is_valid && self.cache[i].tag == tag_of(a) {
                        LineView { is_valid: false, ..self.cache[i] }
                    } else {
                        self.cache[i]
                    },
            ),
            ..self
        }
    }

    /// The state after every line that caches `a` was invalidated.
    pub open spec fn invalidated(self, a: u32) -> MmuView {
        self.invalidated_ways(a, CACHE_WAYS as int)
    }

    /// The state after `data` was stored at the physical address `a`.
    pub open spec fn stored(self, a: u32, data: Seq<u8>) -> MmuView {
        MmuView {
            mem: self.mem.insert(
                page_base(a),
                splice(self.mem[page_base(a)], page_offset(a) as int, data),
            ),
            ..self
        }
    }

    /// A store of `data` at the virtual address `v`: the lines that cache the
    /// address are invalidated where caching is on, and the bytes go to memory.
    pub open spec fn write(self, v: u32, data: Seq<u8>) -> (MmuView, Result<(), SimErr>) {
        match self.translate(v, Perms::WRITE) {
            Err(e) => (self, Err(e)),
            Ok(p) => {
                let m = if self.cache_enabled {
                    self.invalidated(p.0)
                } else {
                    self
                };
                (m.stored(p.0, data), Ok(()))
            },
        }
    }

    /// The state after the cache was flushed.
    pub open spec fn flushed(self) -> MmuView {
        MmuView {
            cache: Seq::new((CACHE_SETS * CACHE_WAYS) as nat, |i: int| LineView::empty()),
            lru: seq![0u32, 1u32, 2u32, 3u32],
            ..self
        }
    }

    /// Every valid cache line holds the bytes of the 64-byte window of
    /// physical memory that it caches.
    pub open spec fn coherent(self) -> bool {
        forall|i: int|
            0 <= i < self.cache.len() && (#[trigger] self.cache[i]).is_valid ==> {
                let a = line_addr(self.cache[i].tag, (i / CACHE_WAYS as int) as u32);
                self.backed(a) && self.cache[i].data == self.ram(a, LINE_SIZE as int)
            }
    }
}


impl MmuView {
    /// Mapping a fresh page keeps the shape, and keeps the cache coherent.
    /// The page that was mapped cannot be mapped again.
    pub proof fn lemma_with_mapping(self, v: u32, perms: u8, page: u32)
        requires
            self.wf(),
            self.mappable(v),
            self.fresh_page(page),
        ensures
            self.with_mapping(v, perms, page).wf(),
            self.coherent() ==> self.with_mapping(v, perms, page).coherent(),
            self.with_mapping(v, perms, page).entry(v) == Some(page | perms as u32),
            !self.with_mapping(v, perms, page).mappable(v),
            forall|i: int, j: int|
                0 <= i < PAGE_TABLE_ENTRIES && 0 <= j < PAGE_TABLE_ENTRIES ==> #[trigger] self.with_mapping(
                    v,
                    perms,
                    page,
                ).slot(i, j) == if i == l1_index(v) && j == l2_index(v) {
                    page | perms as u32
                } else {
                    self.slot(i, j)
                },
    {
        let m = self.with_mapping(v, perms, page);
        lemma_addr_fields(v);
        lemma_entry_fields(page, perms, 0, 0);
        assert forall|i: int, j: int|
            0 <= i < PAGE_TABLE_ENTRIES && 0 <= j < PAGE_TABLE_ENTRIES implies #[trigger] m.slot(i, j)
            == if i == l1_index(v) && j == l2_index(v) {
            page | perms as u32
        } else {
            self.slot(i, j)
        } by {}
        assert forall|i: int, j: int|
            0 <= i < PAGE_TABLE_ENTRIES && 0 <= j < PAGE_TABLE_ENTRIES && #[trigger] m.slot(i, j)
                != 0 implies m.mem.contains_key(page_base(m.slot(i, j))) by {
            if !(i == l1_index(v) && j == l2_index(v)) {
                assert(self.slot(i, j) != 0);
            }
        }
        assert forall|i: int, j: int, k: int, l: int|
            0 <= i < PAGE_TABLE_ENTRIES && 0 <= j < PAGE_TABLE_ENTRIES && 0 <= k
                < PAGE_TABLE_ENTRIES && 0 <= l < PAGE_TABLE_ENTRIES && #[trigger] m.slot(i, j) != 0
                && #[trigger] m.slot(k, l) != 0 && page_base(m.slot(i, j)) == page_base(
                m.slot(k, l),
            ) implies i == k && j == l by {
            let here = |a: int, b: int| a == l1_index(v) && b == l2_index(v);
            if !here(i, j) {
                assert(self.slot(i, j) != 0);
            }
            if !here(k, l) {
                assert(self.slot(k, l) != 0);
            }
        }
        if self.coherent() {
            assert forall|i: int| 0 <= i < m.cache.len() && (#[trigger] m.cache[i]).is_valid implies {
                let a = line_addr(m.cache[i].tag, (i / CACHE_WAYS as int) as u32);
                m.backed(a) && m.cache[i].data == m.ram(a, LINE_SIZE as int)
            } by {
                assert(self.cache[i].is_valid);
            }
        }
    }
}


/// The position of an address in its page is below the size of a page, and
/// is a multiple of four where the address is one.
pub proof fn lemma_page_offset(a: u32)
    ensures
        page_offset(a) < PAGE_SIZE,
        aligned(a, 4) <==> page_offset(a) % 4 == 0,
        page_base(a) | page_offset(a) == a,
{
    lemma_addr_fields(a);
    lemma_aligned(a);
}

/// `a` is a multiple of `width`.
pub open spec fn aligned(a: u32, width: int) -> bool {
    a as int % width == 0
}

proof fn lemma_aligned(a: u32)
    by (bit_vector)
    ensures
        a % 4 == 0 ==> (a & 0x3f) + 4 <= 64 && (a & 0xfff) + 4 <= 4096,
        a % 2 == 0 ==> (a & 0x3f) + 2 <= 64 && (a & 0xfff) + 2 <= 4096,
        (a & 0x3f) + 1 <= 64 && (a & 0xfff) + 1 <= 4096,
        a % 4 == 0 <==> (a & 0xfff) % 4 == 0,
        a % 2 == 0 <==> (a & 0xfff) % 2 == 0,
        a & 2 == 2 ==> a != 0,
        a & 4 == 4 ==> a != 0,
{
}

/// Moving a way to the tail of an eviction order leaves an eviction order.
pub proof fn lemma_touched(lru: Seq<u32>, way: u32)
    requires
        is_way_order(lru),
    ensures
        is_way_order(touched(lru, way)),
{
    let t = touched(lru, way);
    if lru[0] == way {
        assert(t =~= seq![lru[1], lru[2], lru[3], lru[0]]);
    } else if lru[1] == way {
        assert(t =~= seq![lru[0], lru[2], lru[3], lru[1]]);
    } else if lru[2] == way {
        assert(t =~= seq![lru[0], lru[1], lru[3], lru[2]]);
    } else if lru[3] == way {
        assert(t =~= seq![lru[0], lru[1], lru[2], lru[3]]);
    }
}

impl MmuView {
    /// The page-table entries.
    pub open spec fn same_table(self, other: MmuView) -> bool {
        self.table == other.table
    }

    /// A translation that grants reading or writing leads to an allocated page.
    pub proof fn lemma_translated_backed(self, v: u32, perms: u8)
        requires
            self.wf(),
            perms == Perms::READ || perms == Perms::WRITE,
            self.translate(v, perms) is Ok,
        ensures
            self.backed(self.translate(v, perms)->Ok_0.0),
            page_offset(self.translate(v, perms)->Ok_0.0) == page_offset(v),
    {
        let e = self.entry(v)->Some_0;
        lemma_addr_fields(v);
        lemma_addr_fields(e);
        lemma_aligned(e);
        lemma_entry_fields(page_base(e), 0, 0, v);
        assert(self.slot(l1_index(v), l2_index(v)) == e);
    }

    /// Loading a line into a way keeps the shape, and keeps the cache coherent.
    pub proof fn lemma_filled(self, a: u32, way: int)
        requires
            self.wf(),
            self.backed(a),
            0 <= way < CACHE_WAYS,
        ensures
            self.filled(a, way).wf(),
            self.coherent() ==> self.filled(a, way).coherent(),
            self.ram(line_base(a), LINE_SIZE as int).len() == LINE_SIZE,
    {
        let m = self.filled(a, way);
        lemma_addr_fields(a);
        let at = set_index(a) * CACHE_WAYS + way;
        assert forall|i: int, j: int|
            0 <= i < PAGE_TABLE_ENTRIES && 0 <= j < PAGE_TABLE_ENTRIES implies #[trigger] m.slot(i, j)
            == self.slot(i, j) by {}
        if self.coherent() {
            assert forall|i: int| 0 <= i < m.cache.len() && (#[trigger] m.cache[i]).is_valid implies {
                let la = line_addr(m.cache[i].tag, (i / CACHE_WAYS as int) as u32);
                m.backed(la) && m.cache[i].data == m.ram(la, LINE_SIZE as int)
            } by {
                if i == at {
                    assert(i / CACHE_WAYS as int == set_index(a));
                } else {
                    assert(self.cache[i].is_valid);
                }
            }
        }
    }

    /// A load through the cache keeps the shape, and keeps the cache coherent.
    pub proof fn lemma_cache_read(self, a: u32, len: int)
        requires
            self.wf(),
        ensures
            self.cache_read(a, len).0.wf(),
            self.coherent() ==> self.cache_read(a, len).0.coherent(),
            self.cache_read(a, len).0.same_table(self),
            self.cache_read(a, len).0.mem == self.mem,
    {
        lemma_addr_fields(a);
        if self.hit_way(a) is Some {
            let w = self.hit_way(a)->Some_0 as u32;
            lemma_touched(self.lru, w);
            let m = MmuView { lru: touched(self.lru, w), ..self };
            assert forall|i: int, j: int|
                0 <= i < PAGE_TABLE_ENTRIES && 0 <= j < PAGE_TABLE_ENTRIES implies #[trigger] m.slot(
                i,
                j,
            ) == self.slot(i, j) by {}
            if self.coherent() {
                assert forall|i: int| 0 <= i < m.cache.len() && (#[trigger] m.cache[i]).is_valid implies {
                    let la = line_addr(m.cache[i].tag, (i / CACHE_WAYS as int) as u32);
                    m.backed(la) && m.cache[i].data == m.ram(la, LINE_SIZE as int)
                } by {
                    assert(self.cache[i].is_valid);
                }
            }
        } else {
            match self.free_way(a) {
                Some(w) => {
                    if self.backed(a) {
                        let f = self.filled(a, w);
                        self.lemma_filled(a, w);
                        lemma_touched(self.lru, w as u32);
                        let m = MmuView { lru: touched(self.lru, w as u32), ..f };
                        assert forall|i: int, j: int|
                            0 <= i < PAGE_TABLE_ENTRIES && 0 <= j < PAGE_TABLE_ENTRIES implies #[trigger] m.slot(
                            i,
                            j,
                        ) == f.slot(i, j) by {}
                        if self.coherent() {
                            assert forall|i: int|
                                0 <= i < m.cache.len() && (#[trigger] m.cache[i]).is_valid implies {
                                let la = line_addr(m.cache[i].tag, (i / CACHE_WAYS as int) as u32);
                                m.backed(la) && m.cache[i].data == m.ram(la, LINE_SIZE as int)
                            } by {
                                assert(f.cache[i].is_valid);
                            }
                        }
                    }
                },
                None => {
                    let w = self.lru[0];
                    lemma_touched(self.lru, w);
                    let turned = MmuView { lru: touched(self.lru, w), ..self };
                    assert forall|i: int, j: int|
                        0 <= i < PAGE_TABLE_ENTRIES && 0 <= j < PAGE_TABLE_ENTRIES implies #[trigger] turned.slot(
                        i,
                        j,
                    ) == self.slot(i, j) by {}
                    if self.coherent() {
                        assert forall|i: int|
                            0 <= i < turned.cache.len() && (#[trigger] turned.cache[i]).is_valid implies {
                            let la = line_addr(
                                turned.cache[i].tag,
                                (i / CACHE_WAYS as int) as u32,
                            );
                            turned.backed(la) && turned.cache[i].data == turned.ram(
                                la,
                                LINE_SIZE as int,
                            )
                        } by {
                            assert(self.cache[i].is_valid);
                        }
                    }
                    if self.backed(a) {
                        turned.lemma_filled(a, w as int);
                    }
                },
            }
        }
    }

    /// Once a page is mapped with `perms`, a walk for an address of that page
    /// is refused where it asks for a permission that `perms` lacks, and
    /// leads into the page that was mapped where it asks for no other.
    pub proof fn lemma_permissions_enforced(self, v: u32, perms: u8, page: u32, w: u32, asked: u8)
        requires
            self.wf(),
            page_offset(page) == 0,
            page_base(w) == page_base(v),
        ensures
            perms & asked != asked ==> self.with_mapping(v, perms, page).translate(w, asked)
                == Err::<PAddr, SimErr>(SimErr::Permission),
            perms & asked == asked ==> self.with_mapping(v, perms, page).translate(w, asked)
                == Ok::<PAddr, SimErr>(PAddr(page | page_offset(w))),
    {
        lemma_addr_fields(v);
        lemma_addr_fields(w);
        lemma_same_page(v, w);
        lemma_entry_fields(page, perms, asked, w);
    }

    /// A page that was mapped to a fresh page cannot be mapped again: its
    /// entry is not zero, whatever its permissions.
    pub proof fn lemma_mapped_for_good(self, v: u32, perms: u8, page: u32, w: u32)
        requires
            self.wf(),
            self.mappable(v),
            self.fresh_page(page),
            page_base(w) == page_base(v),
        ensures
            !self.with_mapping(v, perms, page).mappable(w),
    {
        self.lemma_with_mapping(v, perms, page);
        lemma_same_page(v, w);
    }

    /// The mapping of one page leaves the walk for every page that is mapped
    /// already as it is.
    pub proof fn lemma_mapping_stable(self, v: u32, perms: u8, page: u32, w: u32, asked: u8)
        requires
            self.wf(),
            self.mappable(v),
            !self.mappable(w),
        ensures
            self.with_mapping(v, perms, page).translate(w, asked) == self.translate(w, asked),
            !self.with_mapping(v, perms, page).mappable(w),
    {
        lemma_addr_fields(v);
        lemma_addr_fields(w);
    }

    /// Loads and stores leave the page table as it is.
    pub proof fn lemma_access_keeps_table(self, v: u32, len: int, data: Seq<u8>)
        ensures
            self.read(v, len).0.table == self.table,
            self.write(v, data).0.table == self.table,
            self.flushed().table == self.table,
    {
    }

    /// A load of up to four bytes at a multiple of four keeps the shape and
    /// the coherence of the cache, and yields as many bytes as were asked for.
    pub proof fn lemma_read(self, v: u32, len: int)
        requires
            self.wf(),
            0 <= len <= 4,
            aligned(v, 4),
        ensures
            self.read(v, len).0.wf(),
            self.coherent() ==> self.read(v, len).0.coherent(),
            self.read(v, len).0.same_table(self),
            self.read(v, len).0.mem == self.mem,
            self.read(v, len).0.cache_enabled == self.cache_enabled,
            self.read(v, len).1 is Ok ==> self.read(v, len).1->Ok_0.0.len() == len,
            self.read(v, len).1 is Ok <==> self.translate(v, Perms::READ) is Ok,
            self.peek(v, len) is Ok ==> self.peek(v, len)->Ok_0.len() == len,
            self.peek(v, len) is Ok <==> self.translate(v, Perms::READ) is Ok,
            self.read(v, len).1 is Ok ==> self.read(v, len).1->Ok_0.0 == self.peek(v, len)->Ok_0
                || self.cached(self.translate(v, Perms::READ)->Ok_0.0),
    {
        if self.translate(v, Perms::READ) is Ok {
            let p = self.translate(v, Perms::READ)->Ok_0.0;
            self.lemma_translated_backed(v, Perms::READ);
            lemma_addr_fields(p);
            lemma_aligned(v);
            lemma_aligned(p);
            self.lemma_cache_read(p, len);
            if self.cache_enabled {
                match self.hit_way(p) {
                    Some(w) => {
                        assert(self.line(p, w).data.len() == LINE_SIZE);
                    },
                    None => {},
                }
            }
        }
    }

    /// A store behind the invalidation of the lines that cache its address
    /// keeps the shape, and keeps the cache coherent.
    pub proof fn lemma_stored(self, a: u32, data: Seq<u8>)
        requires
            self.wf(),
            self.backed(a),
            line_offset(a) + data.len() <= LINE_SIZE,
        ensures
            self.stored(a, data).wf(),
            self.invalidated(a).wf(),
            self.invalidated(a).stored(a, data).wf(),
            self.coherent() ==> self.invalidated(a).stored(a, data).coherent(),
    {
        lemma_addr_fields(a);
        let inv = self.invalidated(a);
        let m = self.stored(a, data);
        let n = inv.stored(a, data);
        assert forall|i: int, j: int|
            0 <= i < PAGE_TABLE_ENTRIES && 0 <= j < PAGE_TABLE_ENTRIES implies #[trigger] m.slot(i, j)
            == self.slot(i, j) && #[trigger] inv.slot(i, j) == self.slot(i, j) && #[trigger] n.slot(
            i,
            j,
        ) == self.slot(i, j) by {}
        assert forall|i: int, j: int|
            0 <= i < PAGE_TABLE_ENTRIES && 0 <= j < PAGE_TABLE_ENTRIES && #[trigger] m.slot(i, j)
                != 0 implies m.mem.contains_key(page_base(m.slot(i, j))) by {
            assert(self.slot(i, j) != 0);
        }
        assert forall|i: int, j: int|
            0 <= i < PAGE_TABLE_ENTRIES && 0 <= j < PAGE_TABLE_ENTRIES && #[trigger] n.slot(i, j)
                != 0 implies n.mem.contains_key(page_base(n.slot(i, j))) by {
            assert(self.slot(i, j) != 0);
        }
        assert forall|i: int, j: int|
            0 <= i < PAGE_TABLE_ENTRIES && 0 <= j < PAGE_TABLE_ENTRIES && #[trigger] inv.slot(i, j)
                != 0 implies inv.mem.contains_key(page_base(inv.slot(i, j))) by {
            assert(self.slot(i, j) != 0);
        }
        assert forall|i: int, j: int, k: int, l: int|
            0 <= i < PAGE_TABLE_ENTRIES && 0 <= j < PAGE_TABLE_ENTRIES && 0 <= k
                < PAGE_TABLE_ENTRIES && 0 <= l < PAGE_TABLE_ENTRIES && #[trigger] m.slot(i, j) != 0
                && #[trigger] m.slot(k, l) != 0 && page_base(m.slot(i, j)) == page_base(
                m.slot(k, l),
            ) implies i == k && j == l by {
            assert(self.slot(i, j) != 0 && self.slot(k, l) != 0);
        }
        assert forall|i: int, j: int, k: int, l: int|
            0 <= i < PAGE_TABLE_ENTRIES && 0 <= j < PAGE_TABLE_ENTRIES && 0 <= k
                < PAGE_TABLE_ENTRIES && 0 <= l < PAGE_TABLE_ENTRIES && #[trigger] n.slot(i, j) != 0
                && #[trigger] n.slot(k, l) != 0 && page_base(n.slot(i, j)) == page_base(
                n.slot(k, l),
            ) implies i == k && j == l by {
            assert(self.slot(i, j) != 0 && self.slot(k, l) != 0);
        }
        assert forall|i: int, j: int, k: int, l: int|
            0 <= i < PAGE_TABLE_ENTRIES && 0 <= j < PAGE_TABLE_ENTRIES && 0 <= k
                < PAGE_TABLE_ENTRIES && 0 <= l < PAGE_TABLE_ENTRIES && #[trigger] inv.slot(i, j)
                != 0 && #[trigger] inv.slot(k, l) != 0 && page_base(inv.slot(i, j)) == page_base(
                inv.slot(k, l),
            ) implies i == k && j == l by {
            assert(self.slot(i, j) != 0 && self.slot(k, l) != 0);
        }
        assert forall|i: int| 0 <= i < inv.cache.len() implies (#[trigger] inv.cache[i]).data.len()
            == LINE_SIZE && inv.cache[i].tag < 0x20_0000 by {
            assert(self.cache[i].tag < 0x20_0000);
        }
        if self.coherent() {
            assert forall|i: int| 0 <= i < n.cache.len() && (#[trigger] n.cache[i]).is_valid implies {
                let la = line_addr(n.cache[i].tag, (i / CACHE_WAYS as int) as u32);
                n.backed(la) && n.cache[i].data == n.ram(la, LINE_SIZE as int)
            } by {
                let tag = self.cache[i].tag;
                let set = (i / CACHE_WAYS as int) as u32;
                let la = line_addr(tag, set);
                assert(self.cache[i].is_valid);
                assert(self.cache[i].tag < 0x20_0000);
                lemma_line_fields(tag, set, a);
                if la == line_base(a) {
                    assert(set_index(a) * CACHE_WAYS <= i < set_index(a) * CACHE_WAYS + CACHE_WAYS);
                } else if page_base(la) == page_base(a) {
                    assert(n.ram(la, LINE_SIZE as int) =~= self.ram(la, LINE_SIZE as int));
                }
            }
        }
    }
}

impl Default for Mmu {
    fn default() -> (m: Self)
        ensures
            m@ == MmuView::initial(),
            m.wf(),
    {
        Self::new()
    }
}

impl Mmu {
    /// The shape that every operation keeps.
    pub open spec fn wf(&self) -> bool {
        self@.wf()
    }

    /// A cache in which no line is valid.
    fn empty_cache() -> (cache: Vec<CacheLine>)
        ensures
            cache@.map_values(|l: CacheLine| l@) == MmuView::initial().cache,
    {
        let mut cache: Vec<CacheLine> = Vec::new();
        let mut i: usize = 0;
        while i < CACHE_SETS * CACHE_WAYS
            invariant
                i <= CACHE_SETS * CACHE_WAYS,
                cache@.len() == i,
                forall|j: int| 0 <= j < i ==> (#[trigger] cache@[j])@ == LineView::empty(),
            decreases CACHE_SETS * CACHE_WAYS - i,
        {
            cache.push(CacheLine::default());
            i += 1;
        }
        assert(cache@.map_values(|l: CacheLine| l@) =~= MmuView::initial().cache);
        cache
    }

    /// The eviction order of a flushed cache.
    fn initial_order() -> (lru: VecDeque<u32>)
        ensures
            lru@ == seq![0u32, 1u32, 2u32, 3u32],
    {
        let mut lru: VecDeque<u32> = VecDeque::new();
        lru.push_back(0);
        lru.push_back(1);
        lru.push_back(2);
        lru.push_back(3);
        assert(lru@ =~= seq![0u32, 1u32, 2u32, 3u32]);
        lru
    }

    /// Initialize a new default Mmu
    pub fn new() -> (m: Self)
        ensures
            m@ == MmuView::initial(),
            m.wf(),
            m@.coherent(),
    {
        let mut page_table: Vec<Option<[PAddr; PAGE_TABLE_ENTRIES]>> = Vec::new();
        let mut i: usize = 0;
        while i < PAGE_TABLE_ENTRIES
            invariant
                i <= PAGE_TABLE_ENTRIES,
                page_table@.len() == i,
                forall|j: int| 0 <= j < i ==> (#[trigger] page_table@[j]) is None,
            decreases PAGE_TABLE_ENTRIES - i,
        {
            page_table.push(None);
            i += 1;
        }
        let m = Self {
            mem: fx_new(),
            page_table,
            cache: Self::empty_cache(),
            lru_queue: Self::initial_order(),
            cache_enabled: true,
        };
        proof {
            assert(m@.mem =~= Map::<u32, Seq<u8>>::empty());
            assert(m@.table =~= MmuView::initial().table);
            assert(m@ =~= MmuView::initial());
        }
        m
    }

    /// Completely flush cache
    pub fn clear_caches(&mut self)
        ensures
            final(self)@ == old(self)@.flushed(),
            old(self).wf() ==> final(self).wf(),
            final(self)@.coherent(),
    {
        self.cache = Self::empty_cache();
        self.lru_queue = Self::initial_order();
        proof {
            assert(self@ =~= old(self)@.flushed());
            if old(self).wf() {
                assert forall|i: int, j: int|
                    0 <= i < PAGE_TABLE_ENTRIES && 0 <= j < PAGE_TABLE_ENTRIES implies #[trigger] self@.slot(
                    i,
                    j,
                ) == old(self)@.slot(i, j) by {}
            }
        }
    }

    /// This performs a page-table walk to translate a given virtual address to a physical
    /// address
    pub fn translate_addr(&self, addr: VAddr, perms: u8) -> (r: Result<PAddr, SimErr>)
        requires
            self.wf(),
        ensures
            r == self@.translate(addr.0, perms),
    {
        // Parse provided address to index page-table
        let idx_1 = ((addr.0 & 0xffc00000) >> 22) as usize;
        let idx_2 = ((addr.0 & 0x003ff000) >> 12) as usize;
        let offset = addr.0 & 0xfff;
        proof {
            lemma_addr_fields(addr.0);
        }

        if let Some(table_1) = &self.page_table[idx_1] {
            let entry = table_1[idx_2].0;
            if entry & perms as u32 != perms as u32 {
                return Err(SimErr::Permission);
            }
            let page_base = entry & 0xffff_f000;
            Ok(PAddr(page_base | offset))
        } else {
            Err(SimErr::AddrTranslation)
        }
    }

    /// Physical page number `j` cannot be allocated.
    pub open spec fn page_taken(&self, j: u32) -> bool {
        j == 0 || self.mem@.contains_key(j << 12)
    }

    /// Look for a page that is not allocated: the page of `seed` if it is
    /// free, else the next free one above it, else the first free one.
    fn find_free_page(&self, seed: u32) -> (r: Option<u32>)
        requires
            self.wf(),
        ensures
            r == self@.chosen_page(seed),
            match r {
                Some(p) => self@.fresh_page(p) && (self@.fresh_page(page_base(seed)) ==> p
                    == page_base(seed)),
                None => self@.exhausted(),
            },
    {
        let start: u32 = seed >> 12;
        proof {
            lemma_page_number(start, seed);
            lemma_shifted_base(seed);
        }
        let mut i: u32 = start;
        while i < PHYS_PAGES
            invariant
                start <= i <= PHYS_PAGES,
                start == seed >> 12,
                start << 12 == page_base(seed),
                start == 0 ==> page_base(seed) == 0,
                self@.first_free(start as int, PHYS_PAGES as int) == self@.first_free(
                    i as int,
                    PHYS_PAGES as int,
                ),
                forall|j: u32| start <= j < i ==> #[trigger] self.page_taken(j),
            decreases PHYS_PAGES - i,
        {
            let page = i << 12;
            proof {
                lemma_page_number(i, 0);
            }
            if i != 0 && !fx_contains(&self.mem, page) {
                assert(i > start ==> self.page_taken(start));
                return Some(page);
            }
            i += 1;
        }
        let mut i: u32 = 0;
        while i < start
            invariant
                i <= start < PHYS_PAGES,
                start == seed >> 12,
                start << 12 == page_base(seed),
                start == 0 ==> page_base(seed) == 0,
                self@.first_free(start as int, PHYS_PAGES as int) is None,
                self@.first_free(0, start as int) == self@.first_free(i as int, start as int),
                forall|j: u32| (j < i || start <= j < PHYS_PAGES) ==> #[trigger] self.page_taken(j),
            decreases start - i,
        {
            let page = i << 12;
            proof {
                lemma_page_number(i, 0);
            }
            if i != 0 && !fx_contains(&self.mem, page) {
                assert(self.page_taken(start));
                return Some(page);
            }
            i += 1;
        }
        proof {
            assert forall|page: u32|
                page_offset(page) == 0 && page != 0 implies #[trigger] self@.mem.contains_key(
                page,
            ) by {
                lemma_page_number(0, page);
                assert(self.page_taken(page >> 12));
            }
        }
        None
    }

    /// Map the page of `addr` to a physical page that is not allocated yet:
    /// the page of `seed` where that one is free. Returns the page.
    pub fn map_page_from(&mut self, addr: VAddr, perms: u8, seed: u32) -> (r: Result<PAddr, SimErr>)
        requires
            old(self).wf(),
        ensures
            final(self).wf(),
            old(self)@.coherent() ==> final(self)@.coherent(),
            r is Ok <==> old(self)@.mappable(addr.0) && !old(self)@.exhausted(),
            r is Ok ==> old(self)@.chosen_page(seed) == Some(r->Ok_0.0),
            old(self)@.mappable(addr.0) ==> (old(self)@.exhausted() <==> old(self)@.chosen_page(
                seed,
            ) is None),
            r is Ok ==> !final(self)@.mappable(addr.0),
            match r {
                Ok(page) => {
                    &&& old(self)@.fresh_page(page.0)
                    &&& old(self)@.fresh_page(page_base(seed)) ==> page.0 == page_base(seed)
                    &&& final(self)@ == old(self)@.with_mapping(addr.0, perms, page.0)
                },
                Err(e) => e == SimErr::MemOverlap && final(self)@ == old(self)@,
            },
    {
        let idx_1 = ((addr.0 & 0xffc00000) >> 22) as usize;
        let idx_2 = ((addr.0 & 0x003ff000) >> 12) as usize;
        proof {
            lemma_addr_fields(addr.0);
        }

        let mut dir = match self.page_table[idx_1] {
            Some(table) => table,
            None => [PAddr(0u32);PAGE_TABLE_ENTRIES],
        };
        if dir[idx_2].0 != 0 {
            return Err(SimErr::MemOverlap);
        }
        let found = self.find_free_page(seed);
        proof {
            if found is Some {
                assert(!self@.mem.contains_key(found->Some_0));
            }
        }
        let page = match found {
            Some(page) => page,
            None => {
                return Err(SimErr::MemOverlap);
            },
        };
        assert(!old(self)@.exhausted()) by {
            assert(!old(self)@.mem.contains_key(page));
        }

        fx_insert(&mut self.mem, page, zero_bytes(PAGE_SIZE));

        // Encode permissions into stored address
        dir[idx_2] = PAddr(page | perms as u32);
        self.page_table[idx_1] = Some(dir);

        proof {
            let pre = old(self)@;
            let post = pre.with_mapping(addr.0, perms, page);
            assert(self@.mem =~= post.mem);
            assert(self@.table[idx_1 as int]->Some_0 =~= post.table[idx_1 as int]->Some_0);
            assert(self@.table =~= post.table);
            assert(self@ =~= post);
            pre.lemma_with_mapping(addr.0, perms, page);
        }
        Ok(PAddr(page))
    }

    /// Take a virtual address and create a page-table entry to map it to a physical entry
    pub fn map_page(&mut self, addr: VAddr, perms: u8) -> (r: Result<(), SimErr>)
        requires
            old(self).wf(),
        ensures
            final(self).wf(),
            old(self)@.coherent() ==> final(self)@.coherent(),
            r is Ok <==> old(self)@.mappable(addr.0) && !old(self)@.exhausted(),
            r is Ok ==> !final(self)@.mappable(addr.0),
            r is Ok ==> exists|page: u32| #[trigger]
                old(self)@.fresh_page(page) && final(self)@ == old(self)@.with_mapping(
                    addr.0,
                    perms,
                    page,
                ),
            r is Err ==> r == Err::<(), SimErr>(SimErr::MemOverlap) && final(self)@ == old(self)@,
    {
        // Find a random free page
        let seed = random_u32();
        match self.map_page_from(addr, perms, seed) {
            Ok(page) => {
                assert(old(self)@.fresh_page(page.0));
                Ok(())
            },
            Err(e) => Err(e),
        }
    }

    /// The first way of the set of `addr` that holds the line of `addr`.
    fn find_hit(&self, addr: PAddr) -> (r: Option<usize>)
        requires
            self.wf(),
        ensures
            match r {
                Some(w) => self@.hit_way(addr.0) == Some(w as int) && w < CACHE_WAYS,
                None => self@.hit_way(addr.0) is None,
            },
    {
        let index = ((addr.0 & 0b11111000000) >> 6) as usize;
        let tag = addr.0 >> 11;
        proof {
            lemma_addr_fields(addr.0);
        }

        // 4-way associative, so lets loop through the 4 entries in this cache-set
        let mut i: usize = 0;
        while i < CACHE_WAYS
            invariant
                i <= CACHE_WAYS,
                self.wf(),
                index == set_index(addr.0),
                index < CACHE_SETS,
                tag == tag_of(addr.0),
                forall|w: int| 0 <= w < i ==> !self@.holds(addr.0, w),
            decreases CACHE_WAYS - i,
        {
            let cacheline = &self.cache[index * 4 + i];
            if tag == cacheline.tag && cacheline.is_valid {
                return Some(i);
            }
            i += 1;
        }
        None
    }

    /// The first way of the set of `addr` whose line is not valid.
    fn find_free(&self, addr: PAddr) -> (r: Option<usize>)
        requires
            self.wf(),
        ensures
            match r {
                Some(w) => self@.free_way(addr.0) == Some(w as int) && w < CACHE_WAYS,
                None => self@.free_way(addr.0) is None,
            },
    {
        let index = ((addr.0 & 0b11111000000) >> 6) as usize;
        proof {
            lemma_addr_fields(addr.0);
        }
        let mut i: usize = 0;
        while i < CACHE_WAYS
            invariant
                i <= CACHE_WAYS,
                self.wf(),
                index == set_index(addr.0),
                index < CACHE_SETS,
                forall|w: int| 0 <= w < i ==> self@.line(addr.0, w).is_valid,
            decreases CACHE_WAYS - i,
        {
            if !self.cache[index * 4 + i].is_valid {
                return Some(i);
            }
            i += 1;
        }
        None
    }

    /// Load the line of `addr` from ram into way `way` of its set and mark it as valid
    fn fill_line(&mut self, addr: PAddr, way: usize) -> (r: Result<(), SimErr>)
        requires
            old(self).wf(),
            way < CACHE_WAYS,
        ensures
            match r {
                Ok(()) => old(self)@.backed(addr.0) && final(self)@ == old(self)@.filled(
                    addr.0,
                    way as int,
                ),
                Err(e) => e == SimErr::AddrTranslation && !old(self)@.backed(addr.0) && final(self)@
                    == old(self)@,
            },
    {
        let index = ((addr.0 & 0b11111000000) >> 6) as usize;
        let tag = addr.0 >> 11;

        // Align address to 2^6 bounds to match the offset
        let cache_aligned_addr = PAddr(addr.0 & 0xffff_ffc0);
        proof {
            lemma_addr_fields(addr.0);
        }

        let mut r1 = zero_bytes(LINE_SIZE);
        match self.mem_load_from_ram(cache_aligned_addr, &mut r1) {
            Ok(_) => {},
            Err(e) => {
                return Err(e);
            },
        }
        let at = index * 4 + way;
        self.cache[at].data = r1;
        self.cache[at].tag = tag;
        self.cache[at].is_valid = true;
        proof {
            assert(self@.cache =~= old(self)@.filled(addr.0, way as int).cache);
            assert(self@ =~= old(self)@.filled(addr.0, way as int));
        }
        Ok(())
    }

    /// Update LRU list by removing entry from middle and moving it to the back where it
    /// will survive the longest before being marked for eviction
    fn touch(&mut self, way: u32)
        requires
            old(self).wf(),
        ensures
            final(self)@ == (MmuView { lru: touched(old(self)@.lru, way), ..old(self)@ }),
    {
        let n = self.lru_queue.len();
        let mut j: usize = 0;
        while j < n
            invariant
                j <= n,
                n == CACHE_WAYS,
                *self == *old(self),
                self.lru_queue@.len() == n,
                forall|k: int| 0 <= k < j ==> self.lru_queue@[k] != way,
            decreases n - j,
        {
            if self.lru_queue[j] == way {
                self.lru_queue.remove(j);
                self.lru_queue.push_back(way);
                assert(self@ =~= (MmuView { lru: touched(old(self)@.lru, way), ..old(self)@ }));
                return ;
            }
            j += 1;
        }
        assert(self@ =~= (MmuView { lru: touched(old(self)@.lru, way), ..old(self)@ }));
    }

    /// Load a page from ram
    pub fn mem_load_from_ram(&self, addr: PAddr, reader: &mut Vec<u8>) -> (r: Result<bool, SimErr>)
        requires
            self.wf(),
            page_offset(addr.0) + old(reader).len() <= PAGE_SIZE,
        ensures
            match self@.ram_read(addr.0, old(reader).len() as int) {
                Ok(bytes) => r == Ok::<bool, SimErr>(false) && final(reader)@ == bytes,
                Err(e) => r == Err::<bool, SimErr>(e) && final(reader)@ == old(reader)@,
            },
    {
        let page_base = addr.0 & 0xffff_f000;
        let offset = (addr.0 & 0xfff) as usize;
        proof {
            lemma_addr_fields(addr.0);
        }

        match fx_get(&self.mem, page_base) {
            Some(page) => {
                assert(self@.mem[page_base] == page@);
                copy_out(page, offset, reader);
                Ok(false)
            },
            None => Err(SimErr::AddrTranslation),
        }
    }

    /// Return `true` if `addr` is already cached and false if it is not and we need to hit
    /// physical mem for it
    pub fn addr_in_cache(&self, addr: PAddr) -> (b: bool)
        requires
            self.wf(),
        ensures
            b == self@.cached(addr.0),
    {
        if !self.cache_enabled {
            return false;
        }
        self.find_hit(addr).is_some()
    }

    /// Takes a physical address `addr`, and loads `size` bytes
    /// 4-way set-associative
    /// 21 tag-bits,
    /// 5 index-bits,  32 cache-set entries
    /// 6 offset-bits, 64 Bytes per line
    /// Returns true if cache-hit, false otherwise
    pub fn mem_load_from_cache(&mut self, addr: PAddr, reader: &mut Vec<u8>) -> (r: Result<
        bool,
        SimErr,
    >)
        requires
            old(self).wf(),
            line_offset(addr.0) + old(reader).len() <= LINE_SIZE,
        ensures
            final(self).wf(),
            old(self)@.coherent() ==> final(self)@.coherent(),
            final(self)@ == old(self)@.cache_read(addr.0, old(reader).len() as int).0,
            match old(self)@.cache_read(addr.0, old(reader).len() as int).1 {
                Ok((bytes, hit)) => r == Ok::<bool, SimErr>(hit) && final(reader)@ == bytes,
                Err(e) => r == Err::<bool, SimErr>(e) && final(reader)@ == old(reader)@,
            },
    {
        let offset = (addr.0 & 0b111111) as usize;
        let index = ((addr.0 & 0b11111000000) >> 6) as usize;
        let ghost len = reader.len() as int;
        proof {
            lemma_addr_fields(addr.0);
            old(self)@.lemma_cache_read(addr.0, len);
        }

        // 4-way associative, so lets loop through the 4 entries in this cache-set and see if we are
        // already in here, if so we can just read the data and return
        match self.find_hit(addr) {
            Some(way) => {
                // Move the way to the back of the LRU list
                self.touch(way as u32);
                let at = index * 4 + way;
                assert(self.cache@[at as int]@ == self@.cache[at as int]);
                copy_out(&self.cache[at].data, offset, reader);
                return Ok(true);
            },
            None => {},
        }

        // Loop through again and see if there exists an entry that isn't valid that we can just
        // evict
        match self.find_free(addr) {
            Some(way) => {
                // Load data from ram into this cache-set and mark it as valid
                match self.fill_line(addr, way) {
                    Ok(()) => {},
                    Err(e) => {
                        return Err(e);
                    },
                }
                proof {
                    old(self)@.lemma_filled(addr.0, way as int);
                }
                self.touch(way as u32);
                let at = index * 4 + way;
                assert(self.cache@[at as int]@ == self@.cache[at as int]);
                assert(self@.cache[at as int].data == old(self)@.ram(
                    line_base(addr.0),
                    LINE_SIZE as int,
                ));

                // Fill `reader` with bytes loaded into the cache from dram
                copy_out(&self.cache[at].data, offset, reader);
                assert(reader@ =~= old(self)@.ram(addr.0, len));
                return Ok(false);
            },
            None => {},
        }

        // Evict from cache to insert

        // Get the entry at beginning of queue and move it to the end. We will be using this entry
        // for the cache-line so it should not be evicted anytime soon
        let lru = self.lru_queue.pop_front().unwrap();
        self.lru_queue.push_back(lru);
        proof {
            assert(self.lru_queue@ =~= touched(old(self)@.lru, lru));
            assert(self@ =~= (MmuView { lru: touched(old(self)@.lru, lru), ..old(self)@ }));
            lemma_touched(old(self)@.lru, lru);
            assert forall|i: int, j: int|
                0 <= i < PAGE_TABLE_ENTRIES && 0 <= j < PAGE_TABLE_ENTRIES implies #[trigger] self@.slot(
                i,
                j,
            ) == old(self)@.slot(i, j) by {}
            assert(self.wf());
        }
        let ghost turned = self@;

        // Populate entry
        match self.fill_line(addr, lru as usize) {
            Ok(()) => {},
            Err(e) => {
                return Err(e);
            },
        }
        proof {
            turned.lemma_filled(addr.0, lru as int);
        }

        let at = index * 4 + lru as usize;
        assert(self.cache@[at as int]@ == self@.cache[at as int]);
        assert(self@.cache[at as int].data == old(self)@.ram(line_base(addr.0), LINE_SIZE as int));
        copy_out(&self.cache[at].data, offset, reader);
        assert(reader@ =~= old(self)@.ram(addr.0, len));
        Ok(false)
    }

    /// Invalidate potential cache entry for `addr`
    pub fn mem_invalidate_cache(&mut self, addr: PAddr) -> (r: Result<(), SimErr>)
        requires
            old(self).wf(),
        ensures
            r is Ok,
            final(self)@ == old(self)@.invalidated(addr.0),
    {
        let index = ((addr.0 & 0b11111000000) >> 6) as usize;
        let tag = addr.0 >> 11;
        proof {
            lemma_addr_fields(addr.0);
        }

        // Go through cache-sets for the index of this `addr` to see if there is an entry in the
        // cache for this address. If there is, we invalidate it since we are now writing new data
        let mut i: usize = 0;
        while i < CACHE_WAYS
            invariant
                i <= CACHE_WAYS,
                index == set_index(addr.0),
                index < CACHE_SETS,
                tag == tag_of(addr.0),
                old(self)@.cache.len() == CACHE_SETS * CACHE_WAYS,
                self.cache@.len() == CACHE_SETS * CACHE_WAYS,
                self@ == old(self)@.invalidated_ways(addr.0, i as int),
            decreases CACHE_WAYS - i,
        {
            let at = index * 4 + i;
            let ghost prev = self@;
            assert(prev.cache[at as int] == self.cache@[at as int]@);
            if tag == self.cache[at].tag && self.cache[at].is_valid {
                self.cache[at].is_valid = false;
            }
            i += 1;
            proof {
                let target = old(self)@.invalidated_ways(addr.0, i as int);
                assert forall|k: int| 0 <= k < self@.cache.len() implies self@.cache[k]
                    == target.cache[k] by {
                    if k != at {
                        assert(self@.cache[k] == prev.cache[k]);
                    }
                }
                assert(self@.cache =~= target.cache);
                assert(self@ =~= target);
            }
        }
        Ok(())
    }

    /// Write `data` into memory at virtual address `addr`
    /// Currently we just invalidate caches for `addr` and write directly through to ram
    pub fn mem_write(&mut self, addr: VAddr, data: &[u8]) -> (r: Result<(), SimErr>)
        requires
            old(self).wf(),
            data@.len() == 1 || data@.len() == 2 || data@.len() == 4,
            aligned(addr.0, data@.len() as int),
        ensures
            final(self).wf(),
            old(self)@.coherent() && old(self)@.cache_enabled ==> final(self)@.coherent(),
            final(self)@ == old(self)@.write(addr.0, data@).0,
            r == old(self)@.write(addr.0, data@).1,
    {
        let paddr = match self.translate_addr(addr, Perms::WRITE) {
            Ok(paddr) => paddr,
            Err(e) => {
                return Err(e);
            },
        };
        let page_base = paddr.0 & 0xffff_f000;
        let offset = (paddr.0 & 0xfff) as usize;
        proof {
            lemma_addr_fields(paddr.0);
            lemma_aligned(addr.0);
            lemma_aligned(paddr.0);
            old(self)@.lemma_translated_backed(addr.0, Perms::WRITE);
            old(self)@.lemma_stored(paddr.0, data@);
        }

        if self.cache_enabled {
            let _ = self.mem_invalidate_cache(paddr);
        }
        let ghost mid = self@;

        // Write to memory
        match fx_get_mut(&mut self.mem, page_base) {
            Some(page) => {
                copy_in(page, offset, data);
            },
            None => {},
        }
        proof {
            assert(self@.mem =~= mid.stored(paddr.0, data@).mem);
            assert(self@ =~= mid.stored(paddr.0, data@));
        }
        Ok(())
    }

    /// Load `len` bytes from `addr` and return the bytes through the reader
    pub fn mem_read(&mut self, addr: VAddr, reader: &mut Vec<u8>) -> (r: Result<bool, SimErr>)
        requires
            old(self).wf(),
            old(reader).len() <= 4,
            aligned(addr.0, 4),
        ensures
            final(self).wf(),
            old(self)@.coherent() ==> final(self)@.coherent(),
            final(self)@ == old(self)@.read(addr.0, old(reader).len() as int).0,
            match old(self)@.read(addr.0, old(reader).len() as int).1 {
                Ok((bytes, hit)) => r == Ok::<bool, SimErr>(hit) && final(reader)@ == bytes,
                Err(e) => r == Err::<bool, SimErr>(e) && final(reader)@ == old(reader)@,
            },
    {
        let paddr = match self.translate_addr(addr, Perms::READ) {
            Ok(paddr) => paddr,
            Err(e) => {
                return Err(e);
            },
        };
        proof {
            lemma_aligned(addr.0);
            lemma_aligned(paddr.0);
            old(self)@.lemma_translated_backed(addr.0, Perms::READ);
        }

        if self.cache_enabled {
            self.mem_load_from_cache(paddr, reader)
        } else {
            self.mem_load_from_ram(paddr, reader)
        }
    }

    /// Load `len` bytes from `addr` and return the bytes through the reader
    /// Additional wrapper for gui to not mess up caches
    pub fn gui_mem_read(&mut self, addr: VAddr, reader: &mut Vec<u8>) -> (r: Result<bool, SimErr>)
        requires
            old(self).wf(),
            old(reader).len() <= 4,
            aligned(addr.0, 4),
        ensures
            final(self)@ == old(self)@,
            match old(self)@.peek(addr.0, old(reader).len() as int) {
                Ok(bytes) => r == Ok::<bool, SimErr>(false) && final(reader)@ == bytes,
                Err(e) => r == Err::<bool, SimErr>(e) && final(reader)@ == old(reader)@,
            },
    {
        let paddr = match self.translate_addr(addr, Perms::READ) {
            Ok(paddr) => paddr,
            Err(e) => {
                return Err(e);
            },
        };
        proof {
            lemma_aligned(addr.0);
            lemma_aligned(paddr.0);
            old(self)@.lemma_translated_backed(addr.0, Perms::READ);
        }
        self.mem_load_from_ram(paddr, reader)
    }
}

/// Overwrite `reader` with the bytes of `src` from `off` on.
fn copy_out(src: &Vec<u8>, off: usize, reader: &mut Vec<u8>)
    requires
        off + old(reader).len() <= src.len(),
    ensures
        final(reader)@ == src@.subrange(off as int, off + old(reader).len()),
{
    let n = reader.len();
    let mut i: usize = 0;
    while i < n
        invariant
            i <= n,
            reader.len() == n,
            off + n <= src.len(),
            forall|j: int| 0 <= j < i ==> reader@[j] == src@[off + j],
        decreases n - i,
    {
        reader[i] = src[off + i];
        i += 1;
    }
    assert(reader@ =~= src@.subrange(off as int, off + n));
}

/// Overwrite the bytes of `dst` from `off` on with `data`.
fn copy_in(dst: &mut Vec<u8>, off: usize, data: &[u8])
    requires
        off + data@.len() <= old(dst).len(),
    ensures
        final(dst)@ == splice(old(dst)@, off as int, data@),
{
    let n = data.len();
    let mut i: usize = 0;
    while i < n
        invariant
            i <= n,
            n == data@.len(),
            dst.len() == old(dst).len(),
            off + n <= dst.len(),
            dst@ == splice(old(dst)@, off as int, data@.take(i as int)),
        decreases n - i,
    {
        dst[off + i] = data[i];
        i += 1;
        assert(dst@ =~= splice(old(dst)@, off as int, data@.take(i as int)));
    }
    assert(data@.take(n as int) =~= data@);
}

proof fn lemma_same_page(a: u32, b: u32)
    by (bit_vector)
    requires
        a & 0xffff_f000 == b & 0xffff_f000,
    ensures
        (a & 0xffc0_0000) >> 22 == (b & 0xffc0_0000) >> 22,
        (a & 0x003f_f000) >> 12 == (b & 0x003f_f000) >> 12,
{
}

proof fn lemma_shifted_base(a: u32)
    by (bit_vector)
    ensures
        (a >> 12) << 12 == a & 0xffff_f000,
{
}

} // verus!
