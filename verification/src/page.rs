//! Runtime memory/paging traits, data model and concrete backends.
//!
//! A backend's contents are viewed as a map from every guest address to
//! one byte; reads and writes of a width move that many consecutive
//! (wrapping) addresses, little-endian.
use vstd::prelude::*;
use std::collections::BTreeMap;
use vstd::array::*;

use crate::bytes::{byte_of, le_value, low_mask};

verus! {

broadcast use vstd::laws_cmp::group_laws_cmp;

/// Default 64 KiB page size used by the paged backends.
pub const DEFAULT_PAGE_SIZE: u64 = 65536;

/// High-level memory-system description shared across compile-time and
/// runtime memory layers.
#[derive(Debug, Clone, Default, PartialEq, Eq)]
pub struct MemorySpec {
    /// log2 of the base page size (e.g. 16 for 64 KiB).
    pub page_size_log2: u8,
    /// Number of page-table levels.
    pub levels: u8,
    /// Width of physical addresses in bits.
    pub physical_address_bits: u8,
}

impl MemorySpec {
    /// The canonical 64 KiB WASM-style page.
    pub fn wasm_64k() -> (s: Self)
        ensures
            s.page_size_log2 == 16 && s.levels == 2 && s.physical_address_bits == 56,
    {
        MemorySpec { page_size_log2: 16, levels: 2, physical_address_bits: 56 }
    }

    /// Page size in bytes derived from `page_size_log2`.
    pub fn page_size(&self) -> (r: u64)
        requires
            self.page_size_log2 < 64,
        ensures
            r == 1u64 << self.page_size_log2,
    {
        1u64 << self.page_size_log2
    }
}

/// Width of a memory access.
#[derive(Debug, Clone, Copy, PartialEq, Eq, Hash)]
pub enum AccessWidth {
    W8,
    W16,
    W32,
    W64,
    W128,
}

/// Reasons a memory access may fault.
#[derive(Debug, Clone, Copy, PartialEq, Eq)]
pub enum GuestFault {
    OutOfBounds,
    PermissionDenied,
    Unmapped,
}

pub open spec fn width_bytes(w: AccessWidth) -> Option<u8> {
    match w {
        AccessWidth::W8 => Some(1u8),
        AccessWidth::W16 => Some(2u8),
        AccessWidth::W32 => Some(4u8),
        AccessWidth::W64 => Some(8u8),
        AccessWidth::W128 => None,
    }
}

impl AccessWidth {
    /// Width in bytes for the variants that fit in a `u64`.
    pub fn bytes(&self) -> (r: Option<u8>)
        ensures
            r == width_bytes(*self),
    {
        match self {
            AccessWidth::W8 => Some(1),
            AccessWidth::W16 => Some(2),
            AccessWidth::W32 => Some(4),
            AccessWidth::W64 => Some(8),
            AccessWidth::W128 => None,
        }
    }
}

/// Runtime page-table / address-translation interface.
pub trait PageTable {
    /// The translation of `vaddr`.
    spec fn spec_translate(&self, vaddr: u64) -> Result<u64, GuestFault>;

    /// Translate a guest virtual address to a physical offset.
    fn translate(&self, vaddr: u64) -> (r: Result<u64, GuestFault>)
        ensures
            r == self.spec_translate(vaddr),
    ;
}

/// Runtime guest-memory interface.
pub trait GuestMemory {
    /// What a read of `width` at `addr` gives.
    spec fn spec_read(&self, addr: u64, width: AccessWidth) -> Result<u64, GuestFault>;

    /// Read a value of the given width from the guest address space.
    fn read(&self, addr: u64, width: AccessWidth) -> (r: Result<u64, GuestFault>)
        ensures
            r == self.spec_read(addr, width),
    ;

    /// Write a value of the given width to the guest address space.
    fn write(&mut self, addr: u64, width: AccessWidth, value: u64) -> (r: Result<(), GuestFault>);
}

// ---------------------------------------------------------------------------
// Byte-map view shared by the backends
// ---------------------------------------------------------------------------

/// The `n` bytes at `addr` (wrapping around the address space).
pub open spec fn mem_bytes(m: Map<u64, u8>, addr: u64, n: nat) -> Seq<u8> {
    Seq::new(n, |i: int| m[addr.wrapping_add(i as u64)])
}

/// A read of width `w` at `addr` from byte map `m`.
pub open spec fn mem_read(m: Map<u64, u8>, addr: u64, w: AccessWidth) -> Result<u64, GuestFault> {
    match width_bytes(w) {
        Some(n) => Ok(le_value(mem_bytes(m, addr, n as nat))),
        None => Err(GuestFault::OutOfBounds),
    }
}

/// `m` after writing the `n` low bytes of `v` at `addr`.
pub open spec fn mem_write_n(m: Map<u64, u8>, addr: u64, n: nat, v: u64) -> Map<u64, u8> {
    Map::new(
        |a: u64| m.dom().contains(a),
        |a: u64|
            if (a.wrapping_sub(addr) as nat) < n {
                byte_of(v, a.wrapping_sub(addr) as nat)
            } else {
                m[a]
            },
    )
}

/// Every address has a byte.
pub open spec fn is_total(m: Map<u64, u8>) -> bool {
    forall|a: u64| m.dom().contains(a)
}

proof fn lemma_wrapping_offset(addr: u64, i: u64)
    ensures
        addr.wrapping_add(i).wrapping_sub(addr) == i,
{
}

proof fn lemma_wrapping_inverse(addr: u64, a: u64)
    ensures
        addr.wrapping_add(a.wrapping_sub(addr)) == a,
{
}

proof fn lemma_le_value_zeros(n: nat)
    requires
        n <= 8,
    ensures
        le_value(Seq::new(n, |i: int| 0u8)) == 0,
    decreases n,
{
    if n > 0 {
        let s = Seq::new(n, |i: int| 0u8);
        assert(s.drop_last() =~= Seq::new((n - 1) as nat, |i: int| 0u8));
        lemma_le_value_zeros((n - 1) as nat);
        let sh = (8 * (n - 1)) as u64;
        assert((0u64 | ((0u8 as u64) << sh)) == 0) by (bit_vector);
    }
}

/// Reading a width back right after writing it gives the written value,
/// cut to that width.
pub proof fn lemma_read_after_write(m: Map<u64, u8>, addr: u64, w: AccessWidth, v: u64)
    requires
        width_bytes(w) is Some,
        is_total(m),
    ensures
        mem_read(mem_write_n(m, addr, width_bytes(w).unwrap() as nat, v), addr, w) == Ok::<u64, GuestFault>(
            v & low_mask(width_bytes(w).unwrap() as nat),
        ),
{
    let n = width_bytes(w).unwrap() as nat;
    let m2 = mem_write_n(m, addr, n, v);
    assert forall|i: int| 0 <= i < n implies #[trigger] mem_bytes(m2, addr, n)[i] == crate::bytes::le_bytes(v, n)[i] by {
        lemma_wrapping_offset(addr, i as u64);
    }
    assert(mem_bytes(m2, addr, n) =~= crate::bytes::le_bytes(v, n));
    crate::bytes::lemma_le_value_of_bytes(v, n);
}

/// Where every byte is zero (as in a fresh on-demand memory), every read
/// of a supported width gives zero.
pub proof fn lemma_zero_memory_reads_zero(m: Map<u64, u8>, addr: u64, w: AccessWidth)
    requires
        width_bytes(w) is Some,
        forall|a: u64| m[a] == 0,
    ensures
        mem_read(m, addr, w) == Ok::<u64, GuestFault>(0),
{
    let n = width_bytes(w).unwrap() as nat;
    assert(mem_bytes(m, addr, n) =~= Seq::new(n, |i: int| 0u8));
    lemma_le_value_zeros(n);
}

/// A write leaves every byte outside the written range as it was.
pub proof fn lemma_write_elsewhere(m: Map<u64, u8>, addr: u64, n: nat, v: u64, a: u64)
    requires
        is_total(m),
        (a.wrapping_sub(addr) as nat) >= n,
    ensures
        mem_write_n(m, addr, n, v)[a] == m[a],
{
}

/// A read of bytes that a write did not touch is unaffected by it.
pub proof fn lemma_read_disjoint_write(m: Map<u64, u8>, waddr: u64, n: nat, v: u64, raddr: u64, w: AccessWidth)
    requires
        is_total(m),
        width_bytes(w) is Some,
        forall|i: u64|
            #![trigger raddr.wrapping_add(i)]
            i < width_bytes(w).unwrap() ==> (raddr.wrapping_add(i).wrapping_sub(waddr) as nat) >= n,
    ensures
        mem_read(mem_write_n(m, waddr, n, v), raddr, w) == mem_read(m, raddr, w),
{
    let k = width_bytes(w).unwrap() as nat;
    assert(mem_bytes(mem_write_n(m, waddr, n, v), raddr, k) =~= mem_bytes(m, raddr, k));
}

// ---------------------------------------------------------------------------
// LegacyOnDemand
// ---------------------------------------------------------------------------

/// One 64 KiB page.
pub type Page = [u8; 65536];

/// Legacy memory: 64 KiB pages allocated on first write; reads from
/// unmapped pages return zero.
pub struct LegacyOnDemand {
    pages: BTreeMap<u64, Box<Page>>,
}

/// Calls `BTreeMap::get_mut`. Claimed: for a key present in the map it
/// returns a reference to that key's value, and the map afterwards holds
/// whatever the caller left behind that reference, under the same key.
#[verifier::external_body]
fn page_entry_mut<'a>(pages: &'a mut BTreeMap<u64, Box<Page>>, k: u64) -> (r: &'a mut Page)
    requires
        old(pages)@.contains_key(k),
    ensures
        *r == *old(pages)@[k],
        final(pages)@ == old(pages)@.insert(k, Box::new(*final(r))),
{
    &mut **pages.get_mut(&k).unwrap()
}

impl LegacyOnDemand {
    /// The byte at guest address `a`.
    pub closed spec fn byte(&self, a: u64) -> u8 {
        let k = a >> 16;
        if self.pages@.contains_key(k) {
            self.pages@[k]@[(a & 0xffff) as int]
        } else {
            0
        }
    }

    /// Whether page `k` has been allocated.
    pub closed spec fn has_page(&self, k: u64) -> bool {
        self.pages@.contains_key(k)
    }

    pub fn new() -> (m: Self)
        ensures
            forall|a: u64| m@[a] == 0,
            forall|k: u64| !m.has_page(k),
            is_total(m@),
    {
        LegacyOnDemand { pages: BTreeMap::new() }
    }

    pub fn page_size(&self) -> (r: u64)
        ensures
            r == DEFAULT_PAGE_SIZE,
    {
        DEFAULT_PAGE_SIZE
    }

    /// The 65536 bytes of page `k`: its contents once allocated, zeros
    /// before.
    pub closed spec fn page_bytes(&self, k: u64) -> Seq<u8> {
        if self.pages@.contains_key(k) {
            self.pages@[k]@
        } else {
            Seq::new(65536, |i: int| 0u8)
        }
    }

    /// The page holding addresses `page_num << 16 ..`, allocated (zeroed)
    /// if it was not yet. Page numbers from `2^48` on hold no address.
    pub fn get_page(&mut self, page_num: u64) -> (p: &mut Page)
        ensures
            p@ == old(self).page_bytes(page_num),
            final(self).page_bytes(page_num) == final(p)@,
            final(self).has_page(page_num),
            forall|k: u64| k != page_num ==> #[trigger] final(self).page_bytes(k) == old(self).page_bytes(k)
                && final(self).has_page(k) == old(self).has_page(k),
            page_num < 0x1_0000_0000_0000 ==> forall|i: int|
                0 <= i < 65536 ==> p@[i] == old(self)@[((page_num << 16u64) | (i as u64)) as u64],
            forall|a: u64| (a >> 16u64) != page_num ==> final(self)@[a] == old(self)@[a],
            page_num < 0x1_0000_0000_0000 ==> forall|i: int|
                0 <= i < 65536 ==> final(self)@[((page_num << 16u64) | (i as u64)) as u64] == final(p)@[i],
            is_total(final(self)@),
    {
        self.ensure_page(page_num);
        proof {
            if page_num < 0x1_0000_0000_0000 {
                assert forall|i: u64| i < 65536 implies (((page_num << 16u64) | i) >> 16u64) == page_num && (((
                page_num << 16u64) | i) & 0xffff) == i by {
                    lemma_page_addr(page_num, i);
                }
            }
        }
        page_entry_mut(&mut self.pages, page_num)
    }

    /// Allocates page `k` (zeroed) if absent; contents are unchanged.
    fn ensure_page(&mut self, k: u64)
        ensures
            final(self).pages@.contains_key(k),
            forall|a: u64| final(self).byte(a) == old(self).byte(a),
            forall|j: u64| #![trigger old(self).page_bytes(j)] final(self).page_bytes(j) == old(self).page_bytes(j),
            forall|j: u64| j != k ==> (final(self).pages@.contains_key(j) == old(self).pages@.contains_key(j)),
    {
        if !self.pages.contains_key(&k) {
            let z: Page = array_fill_for_copy_types(0u8);
            self.pages.insert(k, Box::new(z));
            assert(self.page_bytes(k) =~= old(self).page_bytes(k));
            assert forall|a: u64| self.byte(a) == old(self).byte(a) by {
                if (a >> 16u64) == k {
                    assert(((a & 0xffff) as int) < 65536) by {
                        assert(a & 0xffff <= 0xffff) by (bit_vector);
                    }
                }
            }
        }
    }

    fn write_byte(&mut self, a: u64, v: u8)
        ensures
            forall|x: u64| final(self).byte(x) == if x == a { v } else { old(self).byte(x) },
    {
        let k = a >> 16;
        let i = (a & 0xffff) as usize;
        assert(a & 0xffff <= 0xffff) by (bit_vector);
        self.ensure_page(k);
        let p = page_entry_mut(&mut self.pages, k);
        p[i] = v;
        proof {
            assert forall|x: u64| self.byte(x) == if x == a { v } else { old(self).byte(x) } by {
                if (x >> 16u64) == k && x != a {
                    assert((x >> 16u64) == (a >> 16u64) && x != a ==> (x & 0xffff) != (a & 0xffff))
                        by (bit_vector);
                    assert(x & 0xffff <= 0xffff) by (bit_vector);
                }
                if x == a {
                    assert((x >> 16u64) == k);
                }
            }
        }
    }

    fn read_byte(&self, a: u64) -> (r: u8)
        ensures
            r == self.byte(a),
    {
        let k = a >> 16;
        let i = (a & 0xffff) as usize;
        assert(a & 0xffff <= 0xffff) by (bit_vector);
        match self.pages.get(&k) {
            Some(p) => p[i],
            None => 0,
        }
    }
}

/// Pages and addresses agree: the byte at guest address `a` is byte
/// `a & 0xffff` of page `a >> 16`, so what is written through `get_page` is
/// what `read` sees, and what `write` stores is what `get_page` shows.
pub proof fn lemma_byte_in_page(m: LegacyOnDemand, a: u64)
    ensures
        m.page_bytes(a >> 16u64).len() == 65536,
        m@[a] == m.page_bytes(a >> 16u64)[(a & 0xffff) as int],
{
    assert(a & 0xffff <= 0xffff) by (bit_vector);
}

/// Page `p` backs addresses `p * 65536 ..`: byte `k` of page `p` is the byte
/// at address `p * 65536 + k`, and zero while the page is untouched. So a
/// byte stored through `get_page(p)` is what `read` gives at that address,
/// and what `write` stores there is what `get_page(p)` then shows.
pub proof fn lemma_page_backs_address(m: LegacyOnDemand, p: u64, k: u64)
    requires
        p < 0x1_0000_0000_0000,
        k < 65536,
    ensures
        m@[(p * 65536 + k) as u64] == m.page_bytes(p)[k as int],
        !m.has_page(p) ==> m@[(p * 65536 + k) as u64] == 0,
{
    let a = (p * 65536 + k) as u64;
    assert(p < 0x1_0000_0000_0000 && k < 65536 ==> ((p * 65536 + k) as u64) >> 16u64 == p
        && ((p * 65536 + k) as u64) & 0xffff == k) by (bit_vector);
    lemma_byte_in_page(m, a);
}

/// A page that was never allocated reads as all zeros.
pub proof fn lemma_untouched_page_zero(m: LegacyOnDemand, k: u64)
    requires
        !m.has_page(k),
    ensures
        m.page_bytes(k).len() == 65536,
        forall|i: int| 0 <= i < 65536 ==> #[trigger] m.page_bytes(k)[i] == 0,
{
}

proof fn lemma_page_addr(k: u64, i: u64)
    requires
        k < 0x1_0000_0000_0000,
        i < 65536,
    ensures
        ((k << 16u64) | i) >> 16u64 == k,
        ((k << 16u64) | i) & 0xffff == i,
{
    assert(k < 0x1_0000_0000_0000 && i < 65536 ==> ((k << 16u64) | i) >> 16u64 == k && ((k << 16u64) | i)
        & 0xffff == i) by (bit_vector);
}

impl View for LegacyOnDemand {
    type V = Map<u64, u8>;

    closed spec fn view(&self) -> Map<u64, u8> {
        Map::new(|a: u64| true, |a: u64| self.byte(a))
    }
}

fn read_bytes_at(mem: &LegacyOnDemand, addr: u64, n: usize) -> (r: u64)
    requires
        n <= 8,
    ensures
        r == le_value(mem_bytes(mem@, addr, n as nat)),
{
    let mut value: u64 = 0;
    let mut i: usize = 0;
    while i < n
        invariant
            i <= n <= 8,
            value == le_value(mem_bytes(mem@, addr, i as nat)),
        decreases n - i,
    {
        let byte_addr = addr.wrapping_add(i as u64);
        let byte = mem.read_byte(byte_addr);
        proof {
            assert(mem_bytes(mem@, addr, (i + 1) as nat).drop_last() =~= mem_bytes(mem@, addr, i as nat));
        }
        value = value | ((byte as u64) << ((8 * i) as u64));
        i = i + 1;
    }
    value
}

fn write_bytes_at(mem: &mut LegacyOnDemand, addr: u64, n: usize, value: u64)
    requires
        n <= 8,
    ensures
        final(mem)@ == mem_write_n(old(mem)@, addr, n as nat, value),
{
    let mut i: usize = 0;
    assert(mem@ =~= mem_write_n(old(mem)@, addr, 0, value));
    while i < n
        invariant
            i <= n <= 8,
            mem@ == mem_write_n(old(mem)@, addr, i as nat, value),
        decreases n - i,
    {
        let byte_addr = addr.wrapping_add(i as u64);
        assert(((value >> ((8 * i) as u64)) & 0xff) <= 0xff) by (bit_vector);
        let b = ((value >> ((8 * i) as u64)) & 0xff) as u8;
        let ghost prev = mem@;
        mem.write_byte(byte_addr, b);
        proof {
            lemma_wrapping_offset(addr, i as u64);
            assert(b == byte_of(value, i as nat));
            let next = mem_write_n(old(mem)@, addr, (i + 1) as nat, value);
            assert forall|a: u64| #[trigger] mem@[a] == next[a] by {
                if a != byte_addr {
                    lemma_wrapping_inverse(addr, a);
                    assert(a.wrapping_sub(addr) != i as u64);
                    assert(mem@[a] == prev[a]);
                } else {
                    assert(mem@[a] == b);
                }
            }
            assert(mem@ =~= next);
        }
        i = i + 1;
    }
}

impl PageTable for LegacyOnDemand {
    /// Identity mapping within the guest physical address space.
    open spec fn spec_translate(&self, vaddr: u64) -> Result<u64, GuestFault> {
        Ok(vaddr)
    }

    fn translate(&self, vaddr: u64) -> (r: Result<u64, GuestFault>) {
        Ok(vaddr)
    }
}

impl GuestMemory for LegacyOnDemand {
    open spec fn spec_read(&self, addr: u64, width: AccessWidth) -> Result<u64, GuestFault> {
        mem_read(self@, addr, width)
    }

    fn read(&self, addr: u64, width: AccessWidth) -> (r: Result<u64, GuestFault>) {
        match width.bytes() {
            Some(n) => Ok(read_bytes_at(self, addr, n as usize)),
            None => Err(GuestFault::OutOfBounds),
        }
    }

    fn write(&mut self, addr: u64, width: AccessWidth, value: u64) -> (r: Result<(), GuestFault>)
        ensures
            match width_bytes(width) {
                Some(n) => r is Ok && final(self)@ == mem_write_n(old(self)@, addr, n as nat, value),
                None => r == Err::<(), GuestFault>(GuestFault::OutOfBounds) && final(self)@ == old(self)@,
            },
            is_total(final(self)@),
    {
        match width.bytes() {
            Some(n) => {
                write_bytes_at(self, addr, n as usize, value);
                Ok(())
            },
            None => Err(GuestFault::OutOfBounds),
        }
    }
}

// ---------------------------------------------------------------------------
// SharedPageTable
// ---------------------------------------------------------------------------

/// Shared (nested) paging translation: the page table and the security
/// directory live inside an underlying `GuestMemory`, and translation reads
/// its entries from there.
#[derive(Clone, Copy)]
pub struct SharedPageTable<'a, M: GuestMemory + ?Sized> {
    /// Underlying memory that holds the page tables.
    pub mem: &'a M,
    /// Virtual address of the page-table base.
    pub page_table_vaddr: u64,
    /// Virtual address of the security directory.
    pub security_dir_vaddr: u64,
    /// Shared page size (defaults to 64 KiB).
    pub page_size_log2: u8,
    /// Number of levels (2 for single-level, 3 for multi-level).
    pub levels: u8,
    /// Width of page table entries in bits (32 or 64).
    pub pte_width_bits: u8,
}

/// Reading one page-table entry: 64 bits wide for 64-bit entries, else 32.
pub open spec fn spec_read_pte<M: GuestMemory + ?Sized>(pt: SharedPageTable<M>, addr: u64) -> Result<u64, GuestFault> {
    if pt.pte_width_bits == 64 {
        pt.mem.spec_read(addr, AccessWidth::W64)
    } else {
        pt.mem.spec_read(addr, AccessWidth::W32)
    }
}

/// The byte offset of `vaddr` within its page.
pub open spec fn spec_page_offset<M: GuestMemory + ?Sized>(pt: SharedPageTable<M>, vaddr: u64) -> u64 {
    vaddr & (((1u64 << (pt.page_size_log2 as u64)) - 1) as u64)
}

/// Physical address from a leaf page pointer: its low bits index the
/// security directory, whose entry supplies the top bits of the physical
/// page number; the rest of the pointer supplies the low bits.
pub open spec fn spec_leaf<M: GuestMemory + ?Sized>(pt: SharedPageTable<M>, vaddr: u64, page_pointer: u64) -> Result<u64, GuestFault> {
    let wide = pt.pte_width_bits == 64;
    let sec_idx = if wide { page_pointer & 0xFFFF } else { page_pointer & 0xFF };
    let base_low = if wide { page_pointer >> 16u64 } else { page_pointer >> 8u64 };
    let shift: u64 = if wide { 48 } else { 24 };
    let sec_entry_addr = pt.security_dir_vaddr.wrapping_add((sec_idx * 4) as u64);
    match pt.mem.spec_read(sec_entry_addr, AccessWidth::W32) {
        Err(e) => Err(e),
        Ok(sec_entry) => {
            let phys_page_num = ((sec_entry >> shift) << shift) | base_low;
            Ok(((phys_page_num << (pt.page_size_log2 as u64)) + spec_page_offset(pt, vaddr)) as u64)
        },
    }
}

/// Single-level translation: one entry per page, indexed by page number.
/// A page size of 2^64 or more, or an entry offset beyond `u64`, is out of
/// bounds.
pub open spec fn spec_translate_2level<M: GuestMemory + ?Sized>(pt: SharedPageTable<M>, vaddr: u64) -> Result<u64, GuestFault> {
    if pt.page_size_log2 >= 64 {
        Err(GuestFault::OutOfBounds)
    } else {
        let page_num = vaddr >> (pt.page_size_log2 as u64);
        let entry_size = (pt.pte_width_bits / 8) as u64;
        if page_num * entry_size > u64::MAX {
            Err(GuestFault::OutOfBounds)
        } else {
            let entry_addr = pt.page_table_vaddr.wrapping_add((page_num * entry_size) as u64);
            match spec_read_pte(pt, entry_addr) {
                Err(e) => Err(e),
                Ok(page_pointer) => spec_leaf(pt, vaddr, page_pointer),
            }
        }
    }
}

/// Each page has its own page-table entry: storing entry `e` as the
/// `pte_width_bits`-bit entry of page `p` (the `pte_width_bits / 8` bytes at
/// `page_table_vaddr + p * (pte_width_bits / 8)`) makes single-level
/// translation of every address on page `p` go through `e`, whatever the
/// memory held before; consecutive pages use consecutive, non-overlapping
/// entries.
pub proof fn lemma_2level_uses_page_entry(
    pt: SharedPageTable<LegacyOnDemand>,
    before: Map<u64, u8>,
    vaddr: u64,
    e: u64,
)
    requires
        pt.pte_width_bits == 64 || pt.pte_width_bits == 32,
        pt.page_size_log2 < 64,
        is_total(before),
        ({
            let w: nat = if pt.pte_width_bits == 64 { 8 } else { 4 };
            let p = vaddr >> (pt.page_size_log2 as u64);
            &&& p * w <= u64::MAX
            &&& pt.mem@ == mem_write_n(before, pt.page_table_vaddr.wrapping_add((p * w) as u64), w, e)
        }),
    ensures
        spec_translate_2level(pt, vaddr) == spec_leaf(
            pt,
            vaddr,
            if pt.pte_width_bits == 64 { e } else { e & 0xffff_ffff },
        ),
{
    let w: nat = if pt.pte_width_bits == 64 { 8 } else { 4 };
    let p = vaddr >> (pt.page_size_log2 as u64);
    let addr = pt.page_table_vaddr.wrapping_add((p * w) as u64);
    if pt.pte_width_bits == 64 {
        assert((pt.pte_width_bits / 8) as u64 == 8);
        lemma_read_after_write(before, addr, AccessWidth::W64, e);
        assert(e & 0xffff_ffff_ffff_ffff == e) by (bit_vector);
    } else {
        assert((pt.pte_width_bits / 8) as u64 == 4);
        lemma_read_after_write(before, addr, AccessWidth::W32, e);
    }
}

/// Three-level translation: 16-bit indices from bits 48.., 32.. and 16..
/// of `vaddr` walk two table levels to the leaf entry.
pub open spec fn spec_translate_3level<M: GuestMemory + ?Sized>(pt: SharedPageTable<M>, vaddr: u64) -> Result<u64, GuestFault> {
    if pt.page_size_log2 >= 64 {
        Err(GuestFault::OutOfBounds)
    } else {
        let entry_size = (pt.pte_width_bits / 8) as u64;
        let l3_idx = (vaddr >> 48u64) & 0xFFFF;
        let l2_idx = (vaddr >> 32u64) & 0xFFFF;
        let l1_idx = (vaddr >> 16u64) & 0xFFFF;
        match spec_read_pte(pt, pt.page_table_vaddr.wrapping_add((l3_idx * entry_size) as u64)) {
            Err(e) => Err(e),
            Ok(l2_table) => match spec_read_pte(pt, l2_table.wrapping_add((l2_idx * entry_size) as u64)) {
                Err(e) => Err(e),
                Ok(l1_table) => match spec_read_pte(pt, l1_table.wrapping_add((l1_idx * entry_size) as u64)) {
                    Err(e) => Err(e),
                    Ok(page_pointer) => spec_leaf(pt, vaddr, page_pointer),
                },
            },
        }
    }
}

proof fn lemma_page_compose(x: u64, v: u64, s: u64)
    requires
        s < 64,
    ensures
        1u64 << s >= 1,
        (x << s) + (v & (((1u64 << s) - 1) as u64)) <= u64::MAX,
{
    assert(s < 64 ==> 1u64 << s >= 1) by (bit_vector);
    assert(s < 64 ==> (x << s) + (v & (((1u64 << s) - 1) as u64)) <= u64::MAX) by (bit_vector);
}

impl<'a, M: GuestMemory + ?Sized> SharedPageTable<'a, M> {
    pub fn new(mem: &'a M, page_table_vaddr: u64, security_dir_vaddr: u64) -> (pt: Self)
        ensures
            pt.mem == mem,
            pt.page_table_vaddr == page_table_vaddr,
            pt.security_dir_vaddr == security_dir_vaddr,
            pt.page_size_log2 == 16,
            pt.levels == 2,
            pt.pte_width_bits == 64,
    {
        SharedPageTable {
            mem,
            page_table_vaddr,
            security_dir_vaddr,
            page_size_log2: 16,
            levels: 2,
            pte_width_bits: 64,
        }
    }

    fn read_pte(&self, addr: u64) -> (r: Result<u64, GuestFault>)
        ensures
            r == spec_read_pte(*self, addr),
    {
        if self.pte_width_bits == 64 {
            self.mem.read(addr, AccessWidth::W64)
        } else {
            self.mem.read(addr, AccessWidth::W32)
        }
    }

    fn leaf(&self, vaddr: u64, page_pointer: u64) -> (r: Result<u64, GuestFault>)
        requires
            self.page_size_log2 < 64,
        ensures
            r == spec_leaf(*self, vaddr, page_pointer),
    {
        let log2 = self.page_size_log2 as u64;
        proof {
            lemma_page_compose(0, 0, log2);
        }
        let page_offset = vaddr & ((1u64 << log2) - 1);
        let wide = self.pte_width_bits == 64;
        let sec_idx = if wide { page_pointer & 0xFFFF } else { page_pointer & 0xFF };
        let base_low = if wide { page_pointer >> 16u64 } else { page_pointer >> 8u64 };
        let shift: u64 = if wide { 48 } else { 24 };
        assert(sec_idx <= 0xFFFF) by (bit_vector)
            requires
                sec_idx == page_pointer & 0xFFFF || sec_idx == page_pointer & 0xFF,
        ;
        let sec_entry_addr = self.security_dir_vaddr.wrapping_add(sec_idx * 4);
        let sec_entry = match self.mem.read(sec_entry_addr, AccessWidth::W32) {
            Ok(v) => v,
            Err(e) => return Err(e),
        };
        let phys_page_num = ((sec_entry >> shift) << shift) | base_low;
        proof {
            lemma_page_compose(phys_page_num, vaddr, log2);
        }
        Ok((phys_page_num << log2) + page_offset)
    }

    fn translate_2level(&self, vaddr: u64) -> (r: Result<u64, GuestFault>)
        ensures
            r == spec_translate_2level(*self, vaddr),
    {
        if self.page_size_log2 >= 64 {
            return Err(GuestFault::OutOfBounds);
        }
        let page_num = vaddr >> (self.page_size_log2 as u64);
        let entry_size = (self.pte_width_bits / 8) as u64;
        let step = match page_num.checked_mul(entry_size) {
            Some(p) => p,
            None => return Err(GuestFault::OutOfBounds),
        };
        let entry_addr = self.page_table_vaddr.wrapping_add(step);
        let page_pointer = match self.read_pte(entry_addr) {
            Ok(v) => v,
            Err(e) => return Err(e),
        };
        self.leaf(vaddr, page_pointer)
    }

    fn translate_3level(&self, vaddr: u64) -> (r: Result<u64, GuestFault>)
        ensures
            r == spec_translate_3level(*self, vaddr),
    {
        if self.page_size_log2 >= 64 {
            return Err(GuestFault::OutOfBounds);
        }
        let entry_size = (self.pte_width_bits / 8) as u64;
        let l3_idx = (vaddr >> 48u64) & 0xFFFF;
        let l2_idx = (vaddr >> 32u64) & 0xFFFF;
        let l1_idx = (vaddr >> 16u64) & 0xFFFF;
        assert(l3_idx <= 0xFFFF && l2_idx <= 0xFFFF && l1_idx <= 0xFFFF) by (bit_vector)
            requires
                l3_idx == (vaddr >> 48u64) & 0xFFFF,
                l2_idx == (vaddr >> 32u64) & 0xFFFF,
                l1_idx == (vaddr >> 16u64) & 0xFFFF,
        ;
        assert(l3_idx * entry_size <= 0xFFFF * 31 && l2_idx * entry_size <= 0xFFFF * 31 && l1_idx
            * entry_size <= 0xFFFF * 31) by (nonlinear_arith)
            requires
                l3_idx <= 0xFFFF && l2_idx <= 0xFFFF && l1_idx <= 0xFFFF,
                entry_size <= 31,
        ;
        let l2_table = match self.read_pte(self.page_table_vaddr.wrapping_add(l3_idx * entry_size)) {
            Ok(v) => v,
            Err(e) => return Err(e),
        };
        let l1_table = match self.read_pte(l2_table.wrapping_add(l2_idx * entry_size)) {
            Ok(v) => v,
            Err(e) => return Err(e),
        };
        let page_pointer = match self.read_pte(l1_table.wrapping_add(l1_idx * entry_size)) {
            Ok(v) => v,
            Err(e) => return Err(e),
        };
        self.leaf(vaddr, page_pointer)
    }
}

impl<'a, M: GuestMemory + ?Sized> PageTable for SharedPageTable<'a, M> {
    open spec fn spec_translate(&self, vaddr: u64) -> Result<u64, GuestFault> {
        if self.levels == 2 {
            spec_translate_2level(*self, vaddr)
        } else if self.levels == 3 {
            spec_translate_3level(*self, vaddr)
        } else {
            Err(GuestFault::Unmapped)
        }
    }

    fn translate(&self, vaddr: u64) -> (r: Result<u64, GuestFault>) {
        match self.levels {
            2 => self.translate_2level(vaddr),
            3 => self.translate_3level(vaddr),
            _ => Err(GuestFault::Unmapped),
        }
    }
}

// ---------------------------------------------------------------------------
// LinearHost
// ---------------------------------------------------------------------------

/// A host-backed linear memory; guest address `base` is byte 0.
#[derive(Debug, Clone)]
pub struct LinearHost {
    pub memory: Vec<u8>,
    pub base: u64,
}

/// A read of `n` bytes at offset `off` of linear memory `mem`.
pub open spec fn linear_read(mem: Seq<u8>, off: u64, n: nat) -> Result<u64, GuestFault> {
    let start = off as usize;
    if start + n > mem.len() {
        Err(GuestFault::OutOfBounds)
    } else {
        Ok(le_value(mem.subrange(start as int, start + n)))
    }
}

/// The offset of guest address `addr` from `base`.
pub open spec fn linear_offset(base: u64, addr: u64) -> Result<u64, GuestFault> {
    if addr < base {
        Err(GuestFault::OutOfBounds)
    } else {
        Ok((addr - base) as u64)
    }
}

impl LinearHost {
    pub fn new(size: usize) -> (m: Self)
        ensures
            m.memory@ == Seq::new(size as nat, |i: int| 0u8),
            m.base == 0,
    {
        LinearHost { memory: zeroed(size), base: 0 }
    }

    pub fn with_base(size: usize, base: u64) -> (m: Self)
        ensures
            m.memory@ == Seq::new(size as nat, |i: int| 0u8),
            m.base == base,
    {
        LinearHost { memory: zeroed(size), base }
    }

    /// Offset of `addr` relative to `base`.
    pub fn offset(&self, addr: u64) -> (r: Result<u64, GuestFault>)
        ensures
            r == linear_offset(self.base, addr),
    {
        match addr.checked_sub(self.base) {
            Some(o) => Ok(o),
            None => Err(GuestFault::OutOfBounds),
        }
    }
}

fn zeroed(size: usize) -> (v: Vec<u8>)
    ensures
        v@ == Seq::new(size as nat, |i: int| 0u8),
{
    let mut v: Vec<u8> = Vec::new();
    let mut i: usize = 0;
    while i < size
        invariant
            i <= size,
            v@ == Seq::new(i as nat, |j: int| 0u8),
        decreases size - i,
    {
        v.push(0);
        i = i + 1;
        assert(v@ =~= Seq::new(i as nat, |j: int| 0u8));
    }
    v
}

fn read_bytes_linear(mem: &[u8], addr: u64, n: usize) -> (r: Result<u64, GuestFault>)
    requires
        n <= 8,
    ensures
        r == linear_read(mem@, addr, n as nat),
{
    let base = addr as usize;
    let len = mem.len();
    if (base as u128) + (n as u128) > (len as u128) {
        return Err(GuestFault::OutOfBounds);
    }
    Ok(crate::bytes::read_le(mem, base, n))
}

fn write_bytes_linear(mem: &mut Vec<u8>, addr: u64, n: usize, value: u64) -> (r: Result<(), GuestFault>)
    requires
        n <= 8,
    ensures
        match linear_read(old(mem)@, addr, n as nat) {
            Ok(_) => r is Ok && final(mem)@ == crate::bytes::splice(
                old(mem)@,
                (addr as usize) as int,
                crate::bytes::le_bytes(value, n as nat),
            ),
            Err(e) => r == Err::<(), GuestFault>(e) && final(mem)@ == old(mem)@,
        },
{
    let base = addr as usize;
    let len = mem.len();
    if (base as u128) + (n as u128) > (len as u128) {
        return Err(GuestFault::OutOfBounds);
    }
    crate::bytes::write_le(mem, base, n, value);
    Ok(())
}

impl PageTable for LinearHost {
    /// Identity mapping relative to `base`.
    open spec fn spec_translate(&self, vaddr: u64) -> Result<u64, GuestFault> {
        linear_offset(self.base, vaddr)
    }

    fn translate(&self, vaddr: u64) -> (r: Result<u64, GuestFault>) {
        self.offset(vaddr)
    }
}

impl GuestMemory for LinearHost {
    open spec fn spec_read(&self, addr: u64, width: AccessWidth) -> Result<u64, GuestFault> {
        match linear_offset(self.base, addr) {
            Err(e) => Err(e),
            Ok(off) => match width_bytes(width) {
                Some(n) => linear_read(self.memory@, off, n as nat),
                None => Err(GuestFault::OutOfBounds),
            },
        }
    }

    fn read(&self, addr: u64, width: AccessWidth) -> (r: Result<u64, GuestFault>) {
        let off = match self.offset(addr) {
            Ok(o) => o,
            Err(e) => return Err(e),
        };
        match width.bytes() {
            Some(n) => read_bytes_linear(self.memory.as_slice(), off, n as usize),
            None => Err(GuestFault::OutOfBounds),
        }
    }

    fn write(&mut self, addr: u64, width: AccessWidth, value: u64) -> (r: Result<(), GuestFault>)
        ensures
            final(self).base == old(self).base,
            match old(self).spec_read(addr, width) {
                Err(e) => r == Err::<(), GuestFault>(e) && final(self).memory@ == old(self).memory@,
                Ok(_) => r is Ok && final(self).memory@ == crate::bytes::splice(
                    old(self).memory@,
                    (((addr - old(self).base) as u64) as usize) as int,
                    crate::bytes::le_bytes(value, width_bytes(width).unwrap() as nat),
                ),
            },
    {
        let off = match self.offset(addr) {
            Ok(o) => o,
            Err(e) => return Err(e),
        };
        match width.bytes() {
            Some(n) => write_bytes_linear(&mut self.memory, off, n as usize, value),
            None => Err(GuestFault::OutOfBounds),
        }
    }
}

/// In linear memory, reading back a successful write gives the written
/// value cut to the access width.
pub proof fn lemma_linear_read_after_write(mem: Seq<u8>, off: u64, n: nat, v: u64)
    requires
        crate::bytes::is_width(n),
        linear_read(mem, off, n) is Ok,
    ensures
        linear_read(crate::bytes::splice(mem, (off as usize) as int, crate::bytes::le_bytes(v, n)), off, n)
            == Ok::<u64, GuestFault>(v & low_mask(n)),
{
    let start = (off as usize) as int;
    let m2 = crate::bytes::splice(mem, start, crate::bytes::le_bytes(v, n));
    assert(m2.subrange(start, start + n) =~= crate::bytes::le_bytes(v, n));
    crate::bytes::lemma_le_value_of_bytes(v, n);
}

} // verus!
