//! Rewrites an ELF64 little-endian executable's dynamic section to add a
//! `DT_NEEDED` (and optionally `DT_RUNPATH`) entry, always producing new
//! bytes; the input is never mutated.
//!
//! The dynamic array (`PT_DYNAMIC`) ends at its first `DT_NULL`. To add `k`
//! entries, the current terminator slot becomes the first new entry and the
//! `k` all-zero slots after it hold the remaining new entries and the fresh
//! terminator. New strings go into the zero padding after `.dynstr`
//! (located via `DT_STRTAB`/`DT_STRSZ`). Only the "fits in existing slack"
//! case is handled.
use vstd::prelude::*;
use vstd::utf8::*;
use vstd::string::*;

use crate::bytes::{le_at, le_bytes, le_value, push_all, read_le_at, splice, write_le};

verus! {

pub const EI_CLASS_OFFSET: usize = 4;
pub const EI_DATA_OFFSET: usize = 5;
pub const ELFCLASS64: u8 = 2;
pub const ELFDATA2LSB: u8 = 1;

pub const ET_EXEC: u64 = 2;
pub const ET_DYN: u64 = 3;

pub const PT_LOAD: u32 = 1;
pub const PT_DYNAMIC: u32 = 2;

pub const DT_NULL: u64 = 0;
pub const DT_NEEDED: u64 = 1;
pub const DT_STRTAB: u64 = 5;
pub const DT_STRSZ: u64 = 10;
pub const DT_RUNPATH: u64 = 0x1d;

pub const EHDR_SIZE: u64 = 64;
pub const PHDR_SIZE: u64 = 56;
pub const DYN_ENTRY_SIZE: u64 = 16;

pub const MSG_TRUNCATED: &'static str = "truncated";
pub const MSG_PHENTSIZE: &'static str = "unexpected phentsize";
pub const MSG_NO_TERMINATOR: &'static str = "dynamic array has no DT_NULL terminator";
pub const MSG_NO_STRTAB: &'static str = "no DT_STRTAB";
pub const MSG_NO_STRSZ: &'static str = "no DT_STRSZ";
pub const MSG_STRTAB_UNMAPPED: &'static str = "DT_STRTAB vaddr not in any PT_LOAD segment";
pub const MSG_OVERFLOW: &'static str = "offset arithmetic overflows";

pub struct ElfRewriteInput<'a> {
    pub original: &'a [u8],
    /// Shared-object soname or path to add as `DT_NEEDED`.
    pub needed_name: String,
    /// Optional `DT_RUNPATH` to add, e.g. `"$ORIGIN/x"`.
    pub rpath_entry: Option<String>,
}

#[derive(Debug, PartialEq, Eq)]
pub enum RewriteError {
    /// Not a 64-bit little-endian `ET_EXEC`/`ET_DYN` ELF file.
    NotExecutableOrPie,
    /// No `PT_DYNAMIC` segment; likely statically linked.
    NoDynamicSection,
    /// Not enough spare zero slots after the dynamic array's terminator,
    /// or not enough trailing zero padding after `.dynstr`.
    NoFreeStringTableSpace,
    Malformed(&'static str),
}

impl RewriteError {
    /// Human-readable description.
    pub fn message(&self) -> (s: String)
        ensures
            s@ == rewrite_error_message(*self),
    {
        match self {
            RewriteError::NotExecutableOrPie => String::from_str(
                "unsupported ELF: expected a 64-bit little-endian executable or PIE",
            ),
            RewriteError::NoDynamicSection => String::from_str(
                "no PT_DYNAMIC segment (statically linked?)",
            ),
            RewriteError::NoFreeStringTableSpace => String::from_str(
                "no free dynamic-array slot or .dynstr padding to grow into",
            ),
            RewriteError::Malformed(m) => {
                let mut s = String::from_str("malformed ELF: ");
                s.append(m);
                s
            },
        }
    }
}

pub open spec fn rewrite_error_message(e: RewriteError) -> Seq<char> {
    match e {
        RewriteError::NotExecutableOrPie => "unsupported ELF: expected a 64-bit little-endian executable or PIE"@,
        RewriteError::NoDynamicSection => "no PT_DYNAMIC segment (statically linked?)"@,
        RewriteError::NoFreeStringTableSpace => "no free dynamic-array slot or .dynstr padding to grow into"@,
        RewriteError::Malformed(m) => "malformed ELF: "@ + m@,
    }
}

#[derive(Clone, Copy)]
pub struct ProgramHeader {
    pub p_type: u32,
    pub p_offset: u64,
    pub p_vaddr: u64,
    pub p_filesz: u64,
}

/// Where the dynamic array and the string table sit in the file.
#[derive(Clone, Copy)]
pub struct DynamicSection {
    /// File offset of the dynamic array.
    pub offset: u64,
    /// File offset of the first `DT_NULL` entry (the logical terminator).
    pub terminator_offset: u64,
    /// End of the `PT_DYNAMIC` segment's file bytes (`offset + filesz`).
    pub segment_end: u64,
    pub strtab_file_offset: u64,
    pub strsz: u64,
}

// ---------------------------------------------------------------------------
// Specification
// ---------------------------------------------------------------------------

pub open spec fn truncated<T>() -> Result<T, RewriteError> {
    Err(RewriteError::Malformed(MSG_TRUNCATED))
}

/// The program header stored at `off`, if all of its fields lie in `b`.
pub open spec fn phdr_at(b: Seq<u8>, off: int) -> Option<ProgramHeader> {
    match (le_at(b, off, 4), le_at(b, off + 8, 8), le_at(b, off + 16, 8), le_at(b, off + 32, 8)) {
        (Some(t), Some(o), Some(v), Some(f)) => Some(
            ProgramHeader { p_type: t as u32, p_offset: o, p_vaddr: v, p_filesz: f },
        ),
        _ => None,
    }
}

/// The first `k` program headers of the table at `phoff` with stride `entsize`.
pub open spec fn headers_upto(b: Seq<u8>, phoff: int, entsize: int, k: nat) -> Result<
    Seq<ProgramHeader>,
    RewriteError,
>
    decreases k,
{
    if k == 0 {
        Ok(Seq::empty())
    } else {
        match headers_upto(b, phoff, entsize, (k - 1) as nat) {
            Err(e) => Err(e),
            Ok(hs) => {
                let off = phoff + (k - 1) * entsize;
                if off > u64::MAX {
                    Err(RewriteError::Malformed(MSG_OVERFLOW))
                } else {
                    match phdr_at(b, off) {
                        None => truncated(),
                        Some(h) => Ok(hs.push(h)),
                    }
                }
            },
        }
    }
}

/// The program header table named by the ELF header.
pub open spec fn program_headers(b: Seq<u8>) -> Result<Seq<ProgramHeader>, RewriteError> {
    match (le_at(b, 32, 8), le_at(b, 54, 2), le_at(b, 56, 2)) {
        (Some(phoff), Some(entsize), Some(phnum)) => if entsize < PHDR_SIZE {
            Err(RewriteError::Malformed(MSG_PHENTSIZE))
        } else {
            headers_upto(b, phoff as int, entsize as int, phnum as nat)
        },
        _ => truncated(),
    }
}

/// The first header of type `PT_DYNAMIC`, if any.
pub open spec fn first_dynamic(hs: Seq<ProgramHeader>) -> Option<ProgramHeader>
    decreases hs.len(),
{
    if hs.len() == 0 {
        None
    } else if hs[0].p_type == PT_DYNAMIC {
        Some(hs[0])
    } else {
        first_dynamic(hs.drop_first())
    }
}

/// Result of scanning the dynamic array: last `DT_STRTAB` value, last
/// `DT_STRSZ` value, and the offset of the first `DT_NULL`, if any.
#[derive(Clone, Copy)]
pub struct DynScan {
    pub strtab: Option<u64>,
    pub strsz: Option<u64>,
    pub terminator: Option<u64>,
}

/// Scans entries from `off` while a whole entry fits before `end`.
pub open spec fn scan_dynamic(b: Seq<u8>, off: int, end: int, strtab: Option<u64>, strsz: Option<u64>) -> Result<
    DynScan,
    RewriteError,
>
    decreases end - off,
{
    if off + 16 > end {
        Ok(DynScan { strtab, strsz, terminator: None })
    } else {
        match (le_at(b, off, 8), le_at(b, off + 8, 8)) {
            (Some(tag), Some(val)) => if tag == DT_NULL {
                Ok(DynScan { strtab, strsz, terminator: Some(off as u64) })
            } else if tag == DT_STRTAB {
                scan_dynamic(b, off + 16, end, Some(val), strsz)
            } else if tag == DT_STRSZ {
                scan_dynamic(b, off + 16, end, strtab, Some(val))
            } else {
                scan_dynamic(b, off + 16, end, strtab, strsz)
            },
            _ => truncated(),
        }
    }
}

/// Offset of the first `PT_LOAD` header containing `vaddr`.
pub open spec fn load_for_vaddr(hs: Seq<ProgramHeader>, vaddr: u64) -> Option<ProgramHeader>
    decreases hs.len(),
{
    if hs.len() == 0 {
        None
    } else if hs[0].p_type == PT_LOAD && hs[0].p_vaddr <= vaddr && vaddr < hs[0].p_vaddr
        + hs[0].p_filesz {
        Some(hs[0])
    } else {
        load_for_vaddr(hs.drop_first(), vaddr)
    }
}

/// The file offset of `vaddr` through the `PT_LOAD` segment containing it.
pub open spec fn vaddr_file_offset(hs: Seq<ProgramHeader>, vaddr: u64) -> Result<u64, RewriteError> {
    match load_for_vaddr(hs, vaddr) {
        None => Err(RewriteError::Malformed(MSG_STRTAB_UNMAPPED)),
        Some(h) => if h.p_offset + (vaddr - h.p_vaddr) > u64::MAX {
            Err(RewriteError::Malformed(MSG_OVERFLOW))
        } else {
            Ok((h.p_offset + (vaddr - h.p_vaddr)) as u64)
        },
    }
}

/// The dynamic section located through `hs`.
pub open spec fn dynamic_section(b: Seq<u8>, hs: Seq<ProgramHeader>) -> Result<DynamicSection, RewriteError> {
    match first_dynamic(hs) {
        None => Err(RewriteError::NoDynamicSection),
        Some(d) => if d.p_offset + d.p_filesz > u64::MAX {
            Err(RewriteError::Malformed(MSG_OVERFLOW))
        } else {
            let end = d.p_offset + d.p_filesz;
            match scan_dynamic(b, d.p_offset as int, end, None, None) {
                Err(e) => Err(e),
                Ok(scan) => match (scan.terminator, scan.strtab, scan.strsz) {
                    (None, _, _) => Err(RewriteError::Malformed(MSG_NO_TERMINATOR)),
                    (Some(_), None, _) => Err(RewriteError::Malformed(MSG_NO_STRTAB)),
                    (Some(_), Some(_), None) => Err(RewriteError::Malformed(MSG_NO_STRSZ)),
                    (Some(term), Some(strtab), Some(strsz)) => match vaddr_file_offset(hs, strtab) {
                        Err(e) => Err(e),
                        Ok(strtab_off) => Ok(
                            DynamicSection {
                                offset: d.p_offset,
                                terminator_offset: term,
                                segment_end: end as u64,
                                strtab_file_offset: strtab_off,
                                strsz,
                            },
                        ),
                    },
                },
            }
        },
    }
}

/// Whether dynamic slot `i` after the terminator is all zero.
pub open spec fn slot_is_free(b: Seq<u8>, term: int, i: int) -> Result<bool, RewriteError> {
    match (le_at(b, term + 16 * i, 8), le_at(b, term + 16 * i + 8, 8)) {
        (Some(t), Some(v)) => Ok(t == 0 && v == 0),
        _ => truncated(),
    }
}

/// Slots `1..=k` after the terminator are all zero.
pub open spec fn slots_free(b: Seq<u8>, term: int, k: int) -> Result<(), RewriteError> {
    match slot_is_free(b, term, 1) {
        Err(e) => Err(e),
        Ok(false) => Err(RewriteError::NoFreeStringTableSpace),
        Ok(true) => if k < 2 {
            Ok(())
        } else {
            match slot_is_free(b, term, 2) {
                Err(e) => Err(e),
                Ok(false) => Err(RewriteError::NoFreeStringTableSpace),
                Ok(true) => Ok(()),
            }
        },
    }
}

/// The NUL-terminated strings appended after `.dynstr`.
pub open spec fn appended_strings(needed: Seq<char>, rpath: Option<Seq<char>>) -> Seq<u8> {
    encode_utf8(needed) + seq![0u8] + match rpath {
        Some(r) => encode_utf8(r) + seq![0u8],
        None => Seq::empty(),
    }
}

pub open spec fn all_zero(s: Seq<u8>) -> bool {
    forall|i: int| 0 <= i < s.len() ==> s[i] == 0
}

/// Offset of the `DT_STRSZ` entry found by walking entries from `off`, or
/// `None` when a `DT_NULL` comes first.
pub open spec fn strsz_entry(b: Seq<u8>, off: int) -> Result<Option<int>, RewriteError>
    decreases b.len() - off,
{
    match le_at(b, off, 8) {
        None => truncated(),
        Some(tag) => if tag == DT_STRSZ {
            Ok(Some(off))
        } else if tag == DT_NULL {
            Ok(None)
        } else if off + 16 > b.len() {
            truncated()
        } else {
            strsz_entry(b, off + 16)
        },
    }
}

/// Sets the value of the `DT_STRSZ` entry found from `dyn_off` to `new_strsz`.
pub open spec fn grow_strsz(out: Seq<u8>, dyn_off: int, new_strsz: u64) -> Result<Seq<u8>, RewriteError> {
    match strsz_entry(out, dyn_off) {
        Err(e) => Err(e),
        Ok(None) => Ok(out),
        Ok(Some(off)) => if off + 16 > out.len() {
            truncated()
        } else {
            Ok(splice(out, off + 8, le_bytes(new_strsz, 8)))
        },
    }
}

/// The entries added at the terminator slot, before `DT_STRSZ` is grown.
pub open spec fn with_new_entries(b: Seq<u8>, ds: DynamicSection, needed: Seq<char>, has_rpath: bool) -> Seq<u8> {
    let term = ds.terminator_offset as int;
    let needed_off = ds.strsz as int;
    let rpath_off = ds.strsz + encode_utf8(needed).len() + 1;
    let o1 = splice(b, term, le_bytes(DT_NEEDED, 8));
    let o2 = splice(o1, term + 8, le_bytes(ds.strsz, 8));
    if has_rpath {
        let o3 = splice(o2, term + 16, le_bytes(DT_RUNPATH, 8));
        splice(o3, term + 24, le_bytes(rpath_off as u64, 8))
    } else {
        o2
    }
}

/// The rewrite once the dynamic section is known.
pub open spec fn apply_rewrite(b: Seq<u8>, ds: DynamicSection, needed: Seq<char>, rpath: Option<Seq<char>>) -> Result<
    Seq<u8>,
    RewriteError,
> {
    let k: int = if rpath is Some { 2 } else { 1 };
    let term = ds.terminator_offset as int;
    if term + 16 * (k + 1) > ds.segment_end {
        Err(RewriteError::NoFreeStringTableSpace)
    } else {
        match slots_free(b, term, k) {
            Err(e) => Err(e),
            Ok(_) => {
                let start = ds.strtab_file_offset + ds.strsz;
                let ns = appended_strings(needed, rpath);
                if start > u64::MAX {
                    Err(RewriteError::Malformed(MSG_OVERFLOW))
                } else if start + ns.len() > b.len() {
                    Err(RewriteError::NoFreeStringTableSpace)
                } else if !all_zero(b.subrange(start, start + ns.len())) {
                    Err(RewriteError::NoFreeStringTableSpace)
                } else {
                    let staged = splice(b, start, ns);
                    let out = with_new_entries(staged, ds, needed, rpath is Some);
                    grow_strsz(out, ds.offset as int, (ds.strsz + ns.len()) as u64)
                }
            },
        }
    }
}

/// The bytes start with a 64-bit little-endian ELF identification.
pub open spec fn elf64_le_ident(b: Seq<u8>) -> bool {
    &&& b.len() >= EHDR_SIZE
    &&& b[0] == 0x7f && b[1] == 0x45 && b[2] == 0x4c && b[3] == 0x46
    &&& b[EI_CLASS_OFFSET as int] == ELFCLASS64
    &&& b[EI_DATA_OFFSET as int] == ELFDATA2LSB
}

/// The outcome of `rewrite_elf` on `b`.
pub open spec fn spec_rewrite_elf(b: Seq<u8>, needed: Seq<char>, rpath: Option<Seq<char>>) -> Result<
    Seq<u8>,
    RewriteError,
> {
    if !elf64_le_ident(b) {
        Err(RewriteError::NotExecutableOrPie)
    } else {
        let e_type = le_value(b.subrange(16, 18));
        if e_type != ET_EXEC && e_type != ET_DYN {
            Err(RewriteError::NotExecutableOrPie)
        } else {
            match program_headers(b) {
                Err(e) => Err(e),
                Ok(hs) => match dynamic_section(b, hs) {
                    Err(e) => Err(e),
                    Ok(ds) => apply_rewrite(b, ds, needed, rpath),
                },
            }
        }
    }
}

// ---------------------------------------------------------------------------
// Implementation
// ---------------------------------------------------------------------------

fn read_u16_le(buf: &[u8], off: u64) -> (r: Result<u64, RewriteError>)
    ensures
        r == match le_at(buf@, off as int, 2) {
            Some(v) => Ok(v),
            None => truncated::<u64>(),
        },
{
    match read_le_at(buf, off, 2) {
        Some(v) => Ok(v),
        None => Err(RewriteError::Malformed(MSG_TRUNCATED)),
    }
}

fn read_u32_le(buf: &[u8], off: u64) -> (r: Result<u64, RewriteError>)
    ensures
        r == match le_at(buf@, off as int, 4) {
            Some(v) => Ok(v),
            None => truncated::<u64>(),
        },
{
    match read_le_at(buf, off, 4) {
        Some(v) => Ok(v),
        None => Err(RewriteError::Malformed(MSG_TRUNCATED)),
    }
}

fn read_u64_le(buf: &[u8], off: u64) -> (r: Result<u64, RewriteError>)
    ensures
        r == match le_at(buf@, off as int, 8) {
            Some(v) => Ok(v),
            None => truncated::<u64>(),
        },
{
    match read_le_at(buf, off, 8) {
        Some(v) => Ok(v),
        None => Err(RewriteError::Malformed(MSG_TRUNCATED)),
    }
}

proof fn lemma_le_at_4_bound(b: Seq<u8>, off: int)
    requires
        le_at(b, off, 4) is Some,
    ensures
        le_at(b, off, 4).unwrap() <= u32::MAX,
{
    crate::bytes::lemma_le_value_4_bound(b.subrange(off, off + 4));
}

fn read_program_header(input: &[u8], off: u64) -> (r: Result<ProgramHeader, RewriteError>)
    ensures
        r == match phdr_at(input@, off as int) {
            Some(h) => Ok(h),
            None => truncated::<ProgramHeader>(),
        },
{
    let len = input.len();
    let p_type = match read_u32_le(input, off) {
        Ok(v) => v,
        Err(e) => return Err(e),
    };
    proof {
        lemma_le_at_4_bound(input@, off as int);
    }
    if off > u64::MAX - 32 {
        assert(le_at(input@, off + 32, 8) is None);
        return Err(RewriteError::Malformed(MSG_TRUNCATED));
    }
    let p_offset = match read_u64_le(input, off + 8) {
        Ok(v) => v,
        Err(e) => return Err(e),
    };
    let p_vaddr = match read_u64_le(input, off + 16) {
        Ok(v) => v,
        Err(e) => return Err(e),
    };
    let p_filesz = match read_u64_le(input, off + 32) {
        Ok(v) => v,
        Err(e) => return Err(e),
    };
    Ok(ProgramHeader { p_type: p_type as u32, p_offset, p_vaddr, p_filesz })
}

/// The program headers named by the ELF header.
pub fn read_program_headers(input: &[u8]) -> (r: Result<Vec<ProgramHeader>, RewriteError>)
    ensures
        match r {
            Ok(hs) => program_headers(input@) == Ok::<_, RewriteError>(hs@),
            Err(e) => program_headers(input@) == Err::<Seq<ProgramHeader>, _>(e),
        },
{
    let e_phoff = match read_u64_le(input, 32) {
        Ok(v) => v,
        Err(e) => return Err(e),
    };
    let e_phentsize = match read_u16_le(input, 54) {
        Ok(v) => v,
        Err(e) => return Err(e),
    };
    let e_phnum = match read_u16_le(input, 56) {
        Ok(v) => v,
        Err(e) => return Err(e),
    };
    proof {
        crate::bytes::lemma_le_value_2_bound(input@.subrange(54, 56));
        crate::bytes::lemma_le_value_2_bound(input@.subrange(56, 58));
    }
    if e_phentsize < PHDR_SIZE {
        return Err(RewriteError::Malformed(MSG_PHENTSIZE));
    }
    let mut headers: Vec<ProgramHeader> = Vec::new();
    let mut i: u64 = 0;
    while i < e_phnum
        invariant
            i <= e_phnum <= 0xffff,
            e_phentsize <= 0xffff,
            le_at(input@, 32, 8) == Some(e_phoff),
            le_at(input@, 54, 2) == Some(e_phentsize),
            le_at(input@, 56, 2) == Some(e_phnum),
            e_phentsize >= PHDR_SIZE,
            headers_upto(input@, e_phoff as int, e_phentsize as int, i as nat) == Ok::<
                _,
                RewriteError,
            >(headers@),
        decreases e_phnum - i,
    {
        assert(i * e_phentsize <= 0xffff * 0xffff) by (nonlinear_arith)
            requires
                i <= 0xffff,
                e_phentsize <= 0xffff,
        ;
        let prod = (i as u128) * (e_phentsize as u128);
        let off128 = (e_phoff as u128) + prod;
        if off128 > (u64::MAX as u128) {
            proof {
                lemma_headers_error_persists(input@, e_phoff as int, e_phentsize as int, (i + 1) as nat, e_phnum as nat);
            }
            return Err(RewriteError::Malformed(MSG_OVERFLOW));
        }
        let off = off128 as u64;
        match read_program_header(input, off) {
            Ok(h) => headers.push(h),
            Err(e) => {
                proof {
                    lemma_headers_error_persists(input@, e_phoff as int, e_phentsize as int, (i + 1) as nat, e_phnum as nat);
                }
                return Err(e);
            },
        }
        i = i + 1;
    }
    Ok(headers)
}

proof fn lemma_headers_error_persists(b: Seq<u8>, phoff: int, entsize: int, k: nat, m: nat)
    requires
        headers_upto(b, phoff, entsize, k) is Err,
        k <= m,
    ensures
        headers_upto(b, phoff, entsize, m) == headers_upto(b, phoff, entsize, k),
    decreases m - k,
{
    if k < m {
        lemma_headers_error_persists(b, phoff, entsize, k, (m - 1) as nat);
    }
}

proof fn lemma_first_dynamic_skip(hs: Seq<ProgramHeader>, i: int)
    requires
        0 <= i < hs.len(),
        hs[i].p_type != PT_DYNAMIC,
    ensures
        first_dynamic(hs.subrange(i, hs.len() as int)) == first_dynamic(hs.subrange(i + 1, hs.len() as int)),
{
    assert(hs.subrange(i, hs.len() as int).drop_first() =~= hs.subrange(i + 1, hs.len() as int));
}

proof fn lemma_load_for_vaddr_skip(hs: Seq<ProgramHeader>, i: int, vaddr: u64)
    requires
        0 <= i < hs.len(),
        !(hs[i].p_type == PT_LOAD && hs[i].p_vaddr <= vaddr && vaddr < hs[i].p_vaddr + hs[i].p_filesz),
    ensures
        load_for_vaddr(hs.subrange(i, hs.len() as int), vaddr) == load_for_vaddr(
            hs.subrange(i + 1, hs.len() as int),
            vaddr,
        ),
{
    assert(hs.subrange(i, hs.len() as int).drop_first() =~= hs.subrange(i + 1, hs.len() as int));
}

/// Translates a virtual address to a file offset via the `PT_LOAD` segment
/// that contains it.
pub fn vaddr_to_file_offset(headers: &Vec<ProgramHeader>, vaddr: u64) -> (r: Result<u64, RewriteError>)
    ensures
        r == vaddr_file_offset(headers@, vaddr),
{
    let n = headers.len();
    let mut i: usize = 0;
    assert(headers@.subrange(0, n as int) =~= headers@);
    while i < n
        invariant
            i <= n,
            n == headers@.len(),
            load_for_vaddr(headers@, vaddr) == load_for_vaddr(headers@.subrange(i as int, n as int), vaddr),
        decreases n - i,
    {
        let h = headers[i];
        if h.p_type == PT_LOAD && vaddr >= h.p_vaddr && vaddr - h.p_vaddr < h.p_filesz {
            assert(headers@.subrange(i as int, n as int)[0] == h);
            if h.p_offset > u64::MAX - (vaddr - h.p_vaddr) {
                return Err(RewriteError::Malformed(MSG_OVERFLOW));
            }
            return Ok(h.p_offset + (vaddr - h.p_vaddr));
        }
        proof {
            lemma_load_for_vaddr_skip(headers@, i as int, vaddr);
        }
        i = i + 1;
    }
    Err(RewriteError::Malformed(MSG_STRTAB_UNMAPPED))
}

fn scan_dynamic_entries(input: &[u8], start: u64, seg_end: u64) -> (r: Result<DynScan, RewriteError>)
    requires
        start <= seg_end,
    ensures
        r == scan_dynamic(input@, start as int, seg_end as int, None, None),
        r matches Ok(sc) ==> (sc.terminator matches Some(t) ==> t + 16 <= input@.len()),
{
    let mut strtab: Option<u64> = None;
    let mut strsz: Option<u64> = None;
    let mut off = start;
    while seg_end - off >= DYN_ENTRY_SIZE
        invariant
            start <= off <= seg_end,
            scan_dynamic(input@, start as int, seg_end as int, None, None) == scan_dynamic(
                input@,
                off as int,
                seg_end as int,
                strtab,
                strsz,
            ),
        decreases seg_end - off,
    {
        let tag = match read_u64_le(input, off) {
            Ok(v) => v,
            Err(e) => return Err(e),
        };
        let val = match read_u64_le(input, off + 8) {
            Ok(v) => v,
            Err(e) => return Err(e),
        };
        if tag == DT_NULL {
            return Ok(DynScan { strtab, strsz, terminator: Some(off) });
        }
        if tag == DT_STRTAB {
            strtab = Some(val);
        } else if tag == DT_STRSZ {
            strsz = Some(val);
        }
        off = off + DYN_ENTRY_SIZE;
    }
    Ok(DynScan { strtab, strsz, terminator: None })
}

/// Locates the dynamic array, its terminator and the string table.
pub fn find_dynamic_section(input: &[u8], headers: &Vec<ProgramHeader>) -> (r: Result<
    DynamicSection,
    RewriteError,
>)
    ensures
        r == dynamic_section(input@, headers@),
        r matches Ok(ds) ==> ds.terminator_offset + 16 <= input@.len(),
{
    let n = headers.len();
    let mut i: usize = 0;
    assert(headers@.subrange(0, n as int) =~= headers@);
    while i < n && headers[i].p_type != PT_DYNAMIC
        invariant
            i <= n,
            n == headers@.len(),
            first_dynamic(headers@) == first_dynamic(headers@.subrange(i as int, n as int)),
        decreases n - i,
    {
        proof {
            lemma_first_dynamic_skip(headers@, i as int);
        }
        i = i + 1;
    }
    if i == n {
        return Err(RewriteError::NoDynamicSection);
    }
    let dyn_seg = headers[i];
    assert(headers@.subrange(i as int, n as int)[0] == dyn_seg);
    if dyn_seg.p_offset > u64::MAX - dyn_seg.p_filesz {
        return Err(RewriteError::Malformed(MSG_OVERFLOW));
    }
    let seg_end = dyn_seg.p_offset + dyn_seg.p_filesz;

    let scan = match scan_dynamic_entries(input, dyn_seg.p_offset, seg_end) {
        Ok(sc) => sc,
        Err(e) => return Err(e),
    };
    let terminator_offset = scan.terminator;
    let strtab_vaddr = scan.strtab;
    let strsz = scan.strsz;
    let terminator_offset = match terminator_offset {
        Some(t) => t,
        None => return Err(RewriteError::Malformed(MSG_NO_TERMINATOR)),
    };
    let strtab_vaddr = match strtab_vaddr {
        Some(v) => v,
        None => return Err(RewriteError::Malformed(MSG_NO_STRTAB)),
    };
    let strsz = match strsz {
        Some(v) => v,
        None => return Err(RewriteError::Malformed(MSG_NO_STRSZ)),
    };
    let strtab_file_offset = match vaddr_to_file_offset(headers, strtab_vaddr) {
        Ok(v) => v,
        Err(e) => return Err(e),
    };
    Ok(DynamicSection {
        offset: dyn_seg.p_offset,
        terminator_offset,
        segment_end: seg_end,
        strtab_file_offset,
        strsz,
    })
}

fn slot_free(input: &[u8], term: u64, i: u64) -> (r: Result<bool, RewriteError>)
    requires
        term + 16 * i + 16 <= u64::MAX,
    ensures
        r == slot_is_free(input@, term as int, i as int),
{
    let slot = term + DYN_ENTRY_SIZE * i;
    let t = match read_u64_le(input, slot) {
        Ok(v) => v,
        Err(e) => return Err(e),
    };
    let v = match read_u64_le(input, slot + 8) {
        Ok(v) => v,
        Err(e) => return Err(e),
    };
    Ok(t == 0 && v == 0)
}

fn all_zero_at(buf: &[u8], start: usize, end: usize) -> (r: bool)
    requires
        start <= end <= buf@.len(),
    ensures
        r == all_zero(buf@.subrange(start as int, end as int)),
{
    let mut i = start;
    while i < end
        invariant
            start <= i <= end <= buf@.len(),
            all_zero(buf@.subrange(start as int, i as int)),
        decreases end - i,
    {
        if buf[i] != 0 {
            assert(buf@.subrange(start as int, end as int)[i - start] == buf@[i as int]);
            return false;
        }
        i = i + 1;
        assert forall|j: int| 0 <= j < i - start implies buf@.subrange(start as int, i as int)[j] == 0 by {
            if j < i - 1 - start {
                assert(buf@.subrange(start as int, i - 1)[j] == 0);
            }
        }
    }
    true
}

/// Rewrite `input.original`'s dynamic section to add `DT_NEEDED` (and
/// optionally `DT_RUNPATH`). Returns the new executable bytes; never
/// mutates `input.original`.
pub fn rewrite_elf(input: &ElfRewriteInput<'_>) -> (r: Result<Vec<u8>, RewriteError>)
    ensures
        r matches Ok(out) ==> out@.len() == input.original@.len(),
        match r {
            Ok(out) => spec_rewrite_elf(
                input.original@,
                input.needed_name@,
                opt_view(input.rpath_entry),
            ) == Ok::<_, RewriteError>(out@),
            Err(e) => spec_rewrite_elf(input.original@, input.needed_name@, opt_view(input.rpath_entry))
                == Err::<Seq<u8>, _>(e),
        },
{
    let original = input.original;
    if original.len() < EHDR_SIZE as usize || original[0] != 0x7f || original[1] != 0x45
        || original[2] != 0x4c || original[3] != 0x46 || original[EI_CLASS_OFFSET] != ELFCLASS64
        || original[EI_DATA_OFFSET] != ELFDATA2LSB {
        return Err(RewriteError::NotExecutableOrPie);
    }
    let e_type = match read_u16_le(original, 16) {
        Ok(v) => v,
        Err(e) => return Err(e),
    };
    if e_type != ET_EXEC && e_type != ET_DYN {
        return Err(RewriteError::NotExecutableOrPie);
    }
    let headers = match read_program_headers(original) {
        Ok(hs) => hs,
        Err(e) => return Err(e),
    };
    let ds = match find_dynamic_section(original, &headers) {
        Ok(ds) => ds,
        Err(e) => return Err(e),
    };
    apply(original, &ds, input.needed_name.as_str(), &input.rpath_entry)
}

pub open spec fn opt_view(o: Option<String>) -> Option<Seq<char>> {
    match o {
        Some(s) => Some(s@),
        None => None,
    }
}

fn apply(original: &[u8], ds: &DynamicSection, needed: &str, rpath: &Option<String>) -> (r: Result<
    Vec<u8>,
    RewriteError,
>)
    requires
        ds.terminator_offset + 16 <= original@.len(),
    ensures
        match r {
            Ok(out) => apply_rewrite(original@, *ds, needed@, opt_view(*rpath)) == Ok::<_, RewriteError>(out@)
                && out@.len() == original@.len(),
            Err(e) => apply_rewrite(original@, *ds, needed@, opt_view(*rpath)) == Err::<Seq<u8>, _>(e),
        },
{
    let entries_needed: u64 = if rpath.is_some() { 2 } else { 1 };
    let term = ds.terminator_offset;
    if ds.segment_end < term || ds.segment_end - term < DYN_ENTRY_SIZE * (entries_needed + 1) {
        return Err(RewriteError::NoFreeStringTableSpace);
    }
    let free1 = match slot_free(original, term, 1) {
        Ok(f) => f,
        Err(e) => return Err(e),
    };
    if !free1 {
        return Err(RewriteError::NoFreeStringTableSpace);
    }
    if entries_needed == 2 {
        let free2 = match slot_free(original, term, 2) {
            Ok(f) => f,
            Err(e) => return Err(e),
        };
        if !free2 {
            return Err(RewriteError::NoFreeStringTableSpace);
        }
    }
    assert(slots_free(original@, term as int, entries_needed as int) == Ok::<(), RewriteError>(()));

    let mut new_strings: Vec<u8> = Vec::new();
    push_all(&mut new_strings, needed.as_bytes());
    new_strings.push(0);
    let needed_len = new_strings.len();
    match rpath {
        Some(r) => {
            push_all(&mut new_strings, r.as_str().as_bytes());
            new_strings.push(0);
        },
        None => {},
    }
    assert(new_strings@ =~= appended_strings(needed@, opt_view(*rpath)));

    if ds.strtab_file_offset > u64::MAX - ds.strsz {
        return Err(RewriteError::Malformed(MSG_OVERFLOW));
    }
    let strings_start = ds.strtab_file_offset + ds.strsz;
    let len = original.len();
    if (strings_start as u128) + (new_strings.len() as u128) > (len as u128) {
        return Err(RewriteError::NoFreeStringTableSpace);
    }
    let start = strings_start as usize;
    let end = start + new_strings.len();
    if !all_zero_at(original, start, end) {
        return Err(RewriteError::NoFreeStringTableSpace);
    }

    let mut out = vstd::slice::slice_to_vec(original);
    let mut j: usize = 0;
    let ghost staged = splice(original@, start as int, new_strings@);
    while j < new_strings.len()
        invariant
            j <= new_strings@.len(),
            end == start + new_strings@.len(),
            end <= original@.len(),
            out@ == splice(original@, start as int, new_strings@.subrange(0, j as int)),
        decreases new_strings@.len() - j,
    {
        out.set(start + j, new_strings[j]);
        j = j + 1;
        assert(out@ =~= splice(original@, start as int, new_strings@.subrange(0, j as int)));
    }
    assert(new_strings@.subrange(0, new_strings@.len() as int) =~= new_strings@);
    assert(out@ == staged);

    write_le(&mut out, term as usize, 8, DT_NEEDED);
    write_le(&mut out, (term + 8) as usize, 8, ds.strsz);
    if rpath.is_some() {
        let rpath_str_off = ds.strsz + needed_len as u64;
        write_le(&mut out, (term + 16) as usize, 8, DT_RUNPATH);
        write_le(&mut out, (term + 24) as usize, 8, rpath_str_off);
    }
    assert(out@ == with_new_entries(staged, *ds, needed@, rpath.is_some()));

    let new_strsz = ds.strsz + new_strings.len() as u64;
    let mut off = ds.offset;
    let ghost mid = out@;
    assert(apply_rewrite(original@, *ds, needed@, opt_view(*rpath)) == grow_strsz(mid, ds.offset as int, new_strsz));
    loop
        invariant
            out@ == mid,
            mid.len() == original@.len(),
            strsz_entry(mid, ds.offset as int) == strsz_entry(mid, off as int),
            apply_rewrite(original@, *ds, needed@, opt_view(*rpath)) == grow_strsz(mid, ds.offset as int, new_strsz),
        decreases mid.len() - off,
    {
        let tag = match read_le_at(out.as_slice(), off, 8) {
            Some(t) => t,
            None => return Err(RewriteError::Malformed(MSG_TRUNCATED)),
        };
        if tag == DT_STRSZ {
            if (off as u128) + 16 > (out.len() as u128) {
                return Err(RewriteError::Malformed(MSG_TRUNCATED));
            }
            write_le(&mut out, (off + 8) as usize, 8, new_strsz);
            return Ok(out);
        }
        if tag == DT_NULL {
            return Ok(out);
        }
        if (off as u128) + 16 > (out.len() as u128) {
            return Err(RewriteError::Malformed(MSG_TRUNCATED));
        }
        off = off + DYN_ENTRY_SIZE;
    }
}


} // verus!
