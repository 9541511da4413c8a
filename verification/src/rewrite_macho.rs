//! Rewrites a thin 64-bit Mach-O executable's load commands to add an
//! `LC_LOAD_DYLIB` naming a shim dylib, always producing new bytes; the
//! input is never mutated.
//!
//! A safely replaceable load command (`LC_CODE_SIGNATURE`, optionally paired
//! with a preceding `LC_DATA_IN_CODE`), which re-signing invalidates anyway,
//! gives up its bytes to the new command; if the new command is larger, the
//! zero padding right after the load-command table absorbs the growth.
use vstd::prelude::*;
use vstd::string::*;

use crate::bytes::{le_at, le_bytes, le_value, read_le_at, splice, write_le};

verus! {

pub const MH_MAGIC_64: u64 = 0xfeed_facf;
pub const HEADER_SIZE: u64 = 32;

pub const LC_LOAD_DYLIB: u64 = 0xc;
pub const LC_CODE_SIGNATURE: u64 = 0x1d;
pub const LC_DATA_IN_CODE: u64 = 0x29;

/// Size of a `linkedit_data_command` (`cmd`, `cmdsize`, `dataoff`, `datasize`).
pub const LINKEDIT_DATA_COMMAND_SIZE: u64 = 16;
/// Size of a `dylib_command` before its trailing name string.
pub const DYLIB_COMMAND_HEADER_SIZE: u64 = 24;

pub const MSG_TRUNCATED: &'static str = "truncated";
pub const MSG_TABLE_TOO_LARGE: &'static str = "load-command table exceeds file size";
pub const MSG_TRUNCATED_COMMAND: &'static str = "truncated load command";
pub const MSG_INVALID_SIZE: &'static str = "invalid load command size";

pub struct MachORewriteInput<'a> {
    pub original: &'a [u8],
    /// Load-command path for the injected dylib, e.g. `"@executable_path/x"`.
    pub dylib_load_path: String,
}

#[derive(Debug, PartialEq, Eq)]
pub enum RewriteError {
    /// Universal/fat or 32-bit binaries are not supported; thin them first.
    NotThin64,
    Malformed(&'static str),
    /// No `LC_CODE_SIGNATURE` (optionally paired with `LC_DATA_IN_CODE`) slot
    /// was found to reuse for the new `LC_LOAD_DYLIB`.
    NoReplaceableSlot,
    /// The new command doesn't fit in the reclaimed slot and there isn't
    /// enough zero padding after the load-command table to grow into.
    NoPaddingToGrow,
}

impl RewriteError {
    /// Human-readable description.
    pub fn message(&self) -> (s: String)
        ensures
            s@ == rewrite_error_message(*self),
    {
        match self {
            RewriteError::NotThin64 => String::from_str("unsupported Mach-O: expected thin 64-bit binary"),
            RewriteError::Malformed(m) => {
                let mut s = String::from_str("malformed Mach-O: ");
                s.append(m);
                s
            },
            RewriteError::NoReplaceableSlot => String::from_str(
                "no replaceable load command for the injected dylib",
            ),
            RewriteError::NoPaddingToGrow => String::from_str("no Mach-O load-command padding to grow into"),
        }
    }
}

pub open spec fn rewrite_error_message(e: RewriteError) -> Seq<char> {
    match e {
        RewriteError::NotThin64 => "unsupported Mach-O: expected thin 64-bit binary"@,
        RewriteError::Malformed(m) => "malformed Mach-O: "@ + m@,
        RewriteError::NoReplaceableSlot => "no replaceable load command for the injected dylib"@,
        RewriteError::NoPaddingToGrow => "no Mach-O load-command padding to grow into"@,
    }
}

/// The load-command bytes that the new command takes over.
#[derive(Clone, Copy)]
pub struct Anchor {
    pub offset: u64,
    pub size: u64,
    /// Number of load commands the anchor slot replaces (1 or 2).
    pub command_count: u32,
}

// ---------------------------------------------------------------------------
// Specification
// ---------------------------------------------------------------------------

pub open spec fn u32_at(b: Seq<u8>, off: int) -> u64 {
    le_value(b.subrange(off, off + 4))
}

/// The anchor chosen while walking command `i` at `off`, given the anchor
/// chosen so far.
pub open spec fn anchor_step(b: Seq<u8>, ncmds: nat, table_end: int, i: nat, off: int, cmd: u64, size: u64, anchor: Option<Anchor>) -> Result<
    Option<Anchor>,
    RewriteError,
> {
    let paired: Result<Option<Anchor>, RewriteError> = if anchor is None && cmd == LC_DATA_IN_CODE
        && size == LINKEDIT_DATA_COMMAND_SIZE && i + 1 < ncmds {
        let next_off = off + size;
        if next_off + 8 > b.len() {
            Err(RewriteError::Malformed(MSG_TRUNCATED))
        } else if u32_at(b, next_off) == LC_CODE_SIGNATURE && u32_at(b, next_off + 4)
            == LINKEDIT_DATA_COMMAND_SIZE {
            Ok(Some(Anchor { offset: off as u64, size: (size + 16) as u64, command_count: 2 }))
        } else {
            Ok(anchor)
        }
    } else {
        Ok(anchor)
    };
    match paired {
        Err(e) => Err(e),
        Ok(a) => if a is None && cmd == LC_CODE_SIGNATURE && off + size == table_end {
            Ok(Some(Anchor { offset: off as u64, size, command_count: 1 }))
        } else {
            Ok(a)
        },
    }
}

/// Walks load commands `i..ncmds` starting at `off`.
pub open spec fn scan_commands(b: Seq<u8>, ncmds: nat, table_end: int, i: nat, off: int, anchor: Option<Anchor>) -> Result<
    Option<Anchor>,
    RewriteError,
>
    decreases ncmds - i,
{
    if i >= ncmds {
        Ok(anchor)
    } else if off + 8 > b.len() {
        Err(RewriteError::Malformed(MSG_TRUNCATED_COMMAND))
    } else {
        let cmd = u32_at(b, off);
        let size = u32_at(b, off + 4);
        if size < 8 || off + size > b.len() {
            Err(RewriteError::Malformed(MSG_INVALID_SIZE))
        } else {
            match anchor_step(b, ncmds, table_end, i, off, cmd, size, anchor) {
                Err(e) => Err(e),
                Ok(a) => scan_commands(b, ncmds, table_end, i + 1, off + size, a),
            }
        }
    }
}

/// The replaceable slot among the load commands.
pub open spec fn spec_find_anchor(b: Seq<u8>, ncmds: nat, sizeofcmds: nat) -> Result<Anchor, RewriteError> {
    let table_end = HEADER_SIZE + sizeofcmds;
    if table_end > b.len() {
        Err(RewriteError::Malformed(MSG_TABLE_TOO_LARGE))
    } else {
        match scan_commands(b, ncmds, table_end, 0, HEADER_SIZE as int, None) {
            Err(e) => Err(e),
            Ok(None) => Err(RewriteError::NoReplaceableSlot),
            Ok(Some(a)) => Ok(a),
        }
    }
}

/// `n` rounded up to a multiple of eight.
pub open spec fn round_up_8(n: u64) -> u64 {
    ((n + 7) as u64) & !7u64
}

/// Size of the `LC_LOAD_DYLIB` command naming a path of `name_len` bytes.
pub open spec fn dylib_command_size(name_len: nat) -> u64 {
    round_up_8((DYLIB_COMMAND_HEADER_SIZE + name_len + 1) as u64)
}

/// The bytes `[from, to)` moved by `delta`; other bytes unchanged.
pub open spec fn shift_range(b: Seq<u8>, from: int, to: int, delta: int) -> Seq<u8> {
    Seq::new(
        b.len(),
        |x: int|
            if from + delta <= x < to + delta && from < to {
                b[x - delta]
            } else {
                b[x]
            },
    )
}

/// `b` with the bytes `[from, to)` set to zero.
pub open spec fn zero_range(b: Seq<u8>, from: int, to: int) -> Seq<u8> {
    Seq::new(b.len(), |x: int| if from <= x < to { 0u8 } else { b[x] })
}

/// The new `dylib_command`'s fixed fields at `off`.
pub open spec fn with_dylib_header(b: Seq<u8>, off: int, cmd_size: u64) -> Seq<u8> {
    let h1 = splice(b, off, le_bytes(LC_LOAD_DYLIB, 4));
    let h2 = splice(h1, off + 4, le_bytes(cmd_size, 4));
    let h3 = splice(h2, off + 8, le_bytes(DYLIB_COMMAND_HEADER_SIZE, 4));
    let h4 = splice(h3, off + 12, le_bytes(2, 4));
    let h5 = splice(h4, off + 16, le_bytes(0x10000, 4));
    splice(h5, off + 20, le_bytes(0x10000, 4))
}

/// The outcome of `rewrite_macho` on `b` with load path `name` (its bytes).
pub open spec fn spec_rewrite_macho(b: Seq<u8>, name: Seq<u8>) -> Result<Seq<u8>, RewriteError> {
    if b.len() < HEADER_SIZE || u32_at(b, 0) != MH_MAGIC_64 {
        Err(RewriteError::NotThin64)
    } else {
        let ncmds = u32_at(b, 16);
        let sizeofcmds = u32_at(b, 20);
        let table_end = HEADER_SIZE + sizeofcmds;
        match spec_find_anchor(b, ncmds as nat, sizeofcmds as nat) {
            Err(e) => Err(e),
            Ok(anchor) => {
                let new_size = dylib_command_size(name.len());
                let delta = new_size - anchor.size;
                let a_end = anchor.offset + anchor.size;
                if delta > 0 && table_end + delta > b.len() {
                    Err(RewriteError::NoPaddingToGrow)
                } else if delta > 0 && exists|j: int| table_end <= j < table_end + delta && b[j] != 0 {
                    Err(RewriteError::NoPaddingToGrow)
                } else if anchor.offset + DYLIB_COMMAND_HEADER_SIZE + name.len() > b.len() {
                    Err(RewriteError::Malformed(MSG_INVALID_SIZE))
                } else {
                    let shifted = shift_range(b, a_end, table_end, delta);
                    let clear_end = if anchor.offset + new_size <= b.len() {
                        anchor.offset + new_size
                    } else {
                        b.len() as int
                    };
                    let cleared = zero_range(shifted, anchor.offset as int, clear_end);
                    let headed = with_dylib_header(cleared, anchor.offset as int, new_size);
                    let named = splice(headed, anchor.offset + DYLIB_COMMAND_HEADER_SIZE, name);
                    let sized = splice(named, 20, le_bytes(((sizeofcmds + delta) as u32) as u64, 4));
                    Ok(splice(sized, 16, le_bytes(((ncmds - anchor.command_count + 1) as u32) as u64, 4)))
                }
            },
        }
    }
}

// ---------------------------------------------------------------------------
// Implementation
// ---------------------------------------------------------------------------

fn read_u32_le(buf: &[u8], off: u64) -> (r: Result<u64, RewriteError>)
    ensures
        r == match le_at(buf@, off as int, 4) {
            Some(v) => Ok(v),
            None => Err(RewriteError::Malformed(MSG_TRUNCATED)),
        },
{
    match read_le_at(buf, off, 4) {
        Some(v) => Ok(v),
        None => Err(RewriteError::Malformed(MSG_TRUNCATED)),
    }
}

pub open spec fn anchor_shape(a: Anchor, ncmds: nat, table_end: int, len: int) -> bool {
    &&& HEADER_SIZE <= a.offset
    &&& a.offset + a.size <= len
    &&& a.command_count <= ncmds
    &&& (a.command_count == 1 && a.offset + a.size == table_end) || (a.command_count == 2
        && a.size == 32)
}

/// Finds the replaceable slot among the load commands.
pub fn find_anchor(input: &[u8], ncmds: u32, sizeofcmds: u32) -> (r: Result<Anchor, RewriteError>)
    ensures
        r == spec_find_anchor(input@, ncmds as nat, sizeofcmds as nat),
        r matches Ok(a) ==> anchor_shape(a, ncmds as nat, HEADER_SIZE + sizeofcmds, input@.len() as int),
{
    let len = input.len();
    let table_end = HEADER_SIZE + sizeofcmds as u64;
    if table_end > len as u64 {
        return Err(RewriteError::Malformed(MSG_TABLE_TOO_LARGE));
    }
    let mut anchor: Option<Anchor> = None;
    let mut off = HEADER_SIZE;
    let mut i: u32 = 0;
    while i < ncmds
        invariant
            i <= ncmds,
            len == input@.len(),
            table_end == HEADER_SIZE + sizeofcmds,
            table_end <= len,
            HEADER_SIZE <= off <= len,
            scan_commands(input@, ncmds as nat, table_end as int, 0, HEADER_SIZE as int, None)
                == scan_commands(input@, ncmds as nat, table_end as int, i as nat, off as int, anchor),
            anchor matches Some(a) ==> {
                &&& HEADER_SIZE <= a.offset
                &&& a.command_count <= ncmds
                &&& (a.command_count == 1 && a.offset + a.size == table_end) || (a.command_count == 2
                    && a.size == 32)
                &&& (a.offset + a.size <= off || (a.command_count == 2 && a.offset + 16 == off && i
                    < ncmds && off + 8 <= len && u32_at(input@, off as int + 4) == 16))
            },
        decreases ncmds - i,
    {
        if (len as u64) - off < 8 {
            return Err(RewriteError::Malformed(MSG_TRUNCATED_COMMAND));
        }
        let cmd = read_le_at(input, off, 4).unwrap();
        let size = read_le_at(input, off + 4, 4).unwrap();
        proof {
            crate::bytes::lemma_le_value_4_bound(input@.subrange(off + 4, off + 8));
        }
        if size < 8 || size > (len as u64) - off {
            return Err(RewriteError::Malformed(MSG_INVALID_SIZE));
        }
        let ghost before = anchor;
        if anchor.is_none() && cmd == LC_DATA_IN_CODE && size == LINKEDIT_DATA_COMMAND_SIZE && i + 1
            < ncmds {
            let next_off = off + size;
            if (len as u64) - next_off < 8 {
                return Err(RewriteError::Malformed(MSG_TRUNCATED));
            }
            let next_size = read_le_at(input, next_off + 4, 4).unwrap();
            let next_cmd = read_le_at(input, next_off, 4).unwrap();
            if next_cmd == LC_CODE_SIGNATURE && next_size == LINKEDIT_DATA_COMMAND_SIZE {
                anchor = Some(Anchor { offset: off, size: size + next_size, command_count: 2 });
            }
        }
        if anchor.is_none() && cmd == LC_CODE_SIGNATURE && off + size == table_end {
            anchor = Some(Anchor { offset: off, size, command_count: 1 });
        }
        assert(anchor_step(input@, ncmds as nat, table_end as int, i as nat, off as int, cmd, size, before)
            == Ok::<_, RewriteError>(anchor));
        off = off + size;
        i = i + 1;
    }
    match anchor {
        Some(a) => {
            assert(anchor_shape(a, ncmds as nat, table_end as int, len as int));
            Ok(a)
        },
        None => Err(RewriteError::NoReplaceableSlot),
    }
}

proof fn lemma_round_up_8(n: u64)
    requires
        n <= 0xffff_ffff_ffff_0000,
    ensures
        n <= round_up_8(n) <= n + 7,
        n >= 25 ==> round_up_8(n) >= 32,
{
    let m = (n + 7) as u64;
    assert(m == n + 7 ==> n <= (m & !7u64) && (m & !7u64) <= n + 7) by (bit_vector);
    assert(m == n + 7 && n >= 25 ==> (m & !7u64) >= 32) by (bit_vector);
}

fn padding_is_zero(original: &[u8], from: u64, to: u64) -> (r: bool)
    requires
        from <= to <= original@.len(),
    ensures
        r == !(exists|j: int| from <= j < to && original@[j] != 0),
{
    let len = original.len();
    let mut j = from as usize;
    while j < to as usize
        invariant
            from <= j <= to <= original@.len(),
            len == original@.len(),
            forall|k: int| from <= k < j ==> original@[k] == 0,
        decreases to - j,
    {
        if original[j] != 0 {
            assert(original@[j as int] != 0);
            return false;
        }
        j = j + 1;
    }
    true
}

/// Moves the bytes `[a_end, table_end)` of `out` by `new_size - old_size`.
fn shift_commands(out: &mut Vec<u8>, a_end: u64, table_end: u64, new_size: u64, old_size: u64)
    requires
        a_end <= old(out)@.len(),
        table_end <= old(out)@.len(),
        new_size > old_size ==> table_end + (new_size - old_size) <= old(out)@.len(),
        new_size < old_size ==> old_size - new_size <= a_end,
    ensures
        final(out)@ == shift_range(old(out)@, a_end as int, table_end as int, new_size - old_size),
{
    let ghost b = out@;
    let len = out.len();
    let ghost delta: int = new_size - old_size;
    if new_size > old_size && a_end < table_end {
        let grow = (new_size - old_size) as usize;
        let mut j = table_end as usize;
        while j > a_end as usize
            invariant
                a_end <= j <= table_end,
                table_end + grow <= len,
                grow == delta,
                out@.len() == len,
                len == b.len(),
                out@ == shift_range(b, j as int, table_end as int, grow as int),
            decreases j,
        {
            j = j - 1;
            let v = out[j];
            out.set(j + grow, v);
            assert(out@ =~= shift_range(b, j as int, table_end as int, grow as int));
        }
    } else if new_size < old_size && a_end < table_end {
        let shrink = (old_size - new_size) as usize;
        let mut j = a_end as usize;
        let te = table_end as usize;
        assert(out@ =~= shift_range(b, a_end as int, j as int, -(shrink as int)));
        while j < te
            invariant
                a_end <= j <= te,
                te == table_end,
                shrink <= a_end,
                shrink == -delta,
                out@.len() == len,
                len == b.len(),
                te <= len,
                out@ == shift_range(b, a_end as int, j as int, -(shrink as int)),
            decreases te - j,
        {
            let v = out[j];
            out.set(j - shrink, v);
            j = j + 1;
            assert(out@ =~= shift_range(b, a_end as int, j as int, -(shrink as int)));
        }
    } else {
        assert(out@ =~= shift_range(b, a_end as int, table_end as int, delta));
    }
}

fn zero_bytes(out: &mut Vec<u8>, from: u64, to: u64)
    requires
        from <= to <= old(out)@.len(),
    ensures
        final(out)@ == zero_range(old(out)@, from as int, to as int),
{
    let ghost b = out@;
    let len = out.len();
    let mut k = from as usize;
    assert(out@ =~= zero_range(b, from as int, k as int));
    while k < to as usize
        invariant
            from <= k <= to <= b.len(),
            len == b.len(),
            out@ == zero_range(b, from as int, k as int),
        decreases to - k,
    {
        out.set(k, 0);
        k = k + 1;
        assert(out@ =~= zero_range(b, from as int, k as int));
    }
}

fn copy_bytes(out: &mut Vec<u8>, at: usize, src: &[u8])
    requires
        at + src@.len() <= old(out)@.len(),
    ensures
        final(out)@ == splice(old(out)@, at as int, src@),
{
    let ghost b = out@;
    let len = out.len();
    let mut q: usize = 0;
    assert(out@ =~= splice(b, at as int, src@.subrange(0, 0)));
    while q < src.len()
        invariant
            q <= src@.len(),
            at + src@.len() <= b.len(),
            len == b.len(),
            out@ == splice(b, at as int, src@.subrange(0, q as int)),
        decreases src@.len() - q,
    {
        out.set(at + q, src[q]);
        q = q + 1;
        assert(out@ =~= splice(b, at as int, src@.subrange(0, q as int)));
    }
    assert(src@.subrange(0, src@.len() as int) =~= src@);
}

/// Where the rewrite stops writing: past both the load-command table and
/// the replaced slot, plus the new command's growth.
pub open spec fn untouched_from(b: Seq<u8>, name: Seq<u8>) -> int {
    let table_end = HEADER_SIZE + u32_at(b, 20);
    match spec_find_anchor(b, u32_at(b, 16) as nat, u32_at(b, 20) as nat) {
        Ok(a) => {
            let delta = dylib_command_size(name.len()) - a.size;
            let base = if a.offset + a.size > table_end {
                a.offset + a.size
            } else {
                table_end
            };
            if delta > 0 {
                base + delta
            } else {
                base
            }
        },
        Err(_) => table_end,
    }
}

/// Rewrite `input.original`'s load commands to add
/// `LC_LOAD_DYLIB "input.dylib_load_path"`. Returns the new executable
/// bytes, of the original's length, unchanged past the load-command table
/// and its growth; never mutates `input.original`.
#[verifier::rlimit(100)]
pub fn rewrite_macho(input: &MachORewriteInput<'_>) -> (r: Result<Vec<u8>, RewriteError>)
    requires
        vstd::utf8::encode_utf8(input.dylib_load_path@).len() <= isize::MAX,
    ensures
        r matches Ok(out) ==> out@.len() == input.original@.len() && forall|j: int|
            untouched_from(input.original@, vstd::utf8::encode_utf8(input.dylib_load_path@)) <= j < out@.len()
                ==> out@[j] == input.original@[j],
        match r {
            Ok(out) => spec_rewrite_macho(
                input.original@,
                vstd::utf8::encode_utf8(input.dylib_load_path@),
            ) == Ok::<_, RewriteError>(out@),
            Err(e) => spec_rewrite_macho(input.original@, vstd::utf8::encode_utf8(input.dylib_load_path@))
                == Err::<Seq<u8>, _>(e),
        },
{
    let original = input.original;
    let len = original.len();
    let name = input.dylib_load_path.as_str().as_bytes();
    let ghost b = original@;
    if len < HEADER_SIZE as usize {
        return Err(RewriteError::NotThin64);
    }
    let magic = read_le_at(original, 0, 4).unwrap();
    if magic != MH_MAGIC_64 {
        return Err(RewriteError::NotThin64);
    }
    let ncmds64 = read_le_at(original, 16, 4).unwrap();
    let sizeofcmds64 = read_le_at(original, 20, 4).unwrap();
    proof {
        crate::bytes::lemma_le_value_4_bound(b.subrange(16, 20));
        crate::bytes::lemma_le_value_4_bound(b.subrange(20, 24));
    }
    let ncmds = ncmds64 as u32;
    let sizeofcmds = sizeofcmds64 as u32;
    let table_end = HEADER_SIZE + sizeofcmds64;

    let anchor = match find_anchor(original, ncmds, sizeofcmds) {
        Ok(a) => a,
        Err(e) => return Err(e),
    };

    let name_len = name.len() as u64;
    proof {
        lemma_round_up_8((DYLIB_COMMAND_HEADER_SIZE + name_len + 1) as u64);
    }
    let new_cmd_size = ((DYLIB_COMMAND_HEADER_SIZE + name_len + 1) + 7) & !7u64;
    assert(new_cmd_size == dylib_command_size(name@.len()));
    let a_end = anchor.offset + anchor.size;

    if new_cmd_size > anchor.size {
        let grow = new_cmd_size - anchor.size;
        if (table_end as u128) + (grow as u128) > (len as u128) {
            return Err(RewriteError::NoPaddingToGrow);
        }
        if !padding_is_zero(original, table_end, table_end + grow) {
            return Err(RewriteError::NoPaddingToGrow);
        }
    }
    if (anchor.offset as u128) + (DYLIB_COMMAND_HEADER_SIZE as u128) + (name_len as u128) > (len as u128) {
        return Err(RewriteError::Malformed(MSG_INVALID_SIZE));
    }

    let mut out = vstd::slice::slice_to_vec(original);
    let ghost lim = untouched_from(b, name@);
    assert(name@ == vstd::utf8::encode_utf8(input.dylib_load_path@));
    assert(lim >= table_end && lim >= a_end && lim >= anchor.offset + new_cmd_size);
    shift_commands(&mut out, a_end, table_end, new_cmd_size, anchor.size);
    assert(forall|j: int| lim <= j < len ==> out@[j] == b[j]);
    let clear_end: u64 = if (anchor.offset as u128) + (new_cmd_size as u128) <= (len as u128) {
        anchor.offset + new_cmd_size
    } else {
        len as u64
    };
    zero_bytes(&mut out, anchor.offset, clear_end);
    assert(forall|j: int| lim <= j < len ==> out@[j] == b[j]);

    let off = anchor.offset as usize;
    write_le(&mut out, off, 4, LC_LOAD_DYLIB);
    write_le(&mut out, off + 4, 4, new_cmd_size);
    write_le(&mut out, off + 8, 4, DYLIB_COMMAND_HEADER_SIZE);
    write_le(&mut out, off + 12, 4, 2);
    write_le(&mut out, off + 16, 4, 0x10000);
    write_le(&mut out, off + 20, 4, 0x10000);
    copy_bytes(&mut out, off + 24, name);
    assert(forall|j: int| lim <= j < len ==> out@[j] == b[j]);

    let new_sizeofcmds: u64 = if new_cmd_size >= anchor.size {
        sizeofcmds64 + (new_cmd_size - anchor.size)
    } else {
        sizeofcmds64 - (anchor.size - new_cmd_size)
    };
    write_le(&mut out, 20, 4, (new_sizeofcmds as u32) as u64);
    write_le(&mut out, 16, 4, (ncmds - anchor.command_count + 1) as u64);
    Ok(out)
}


// ---------------------------------------------------------------------------
// Laws
// ---------------------------------------------------------------------------

/// What a found slot replaces: a lone `LC_CODE_SIGNATURE`, or an
/// `LC_DATA_IN_CODE` followed 16 bytes later by `LC_CODE_SIGNATURE`; in
/// either case within the first `ncmds` commands and the file.
spec fn slot_replaces(b: Seq<u8>, ncmds: nat, a: Anchor) -> bool {
    &&& HEADER_SIZE <= a.offset
    &&& a.offset + 8 <= b.len()
    &&& 1 <= a.command_count <= ncmds
    &&& (a.command_count == 1 && u32_at(b, a.offset as int) == LC_CODE_SIGNATURE) || (a.command_count == 2
        && a.offset + 24 <= b.len() && u32_at(b, a.offset as int) == LC_DATA_IN_CODE && u32_at(
        b,
        a.offset + 16,
    ) == LC_CODE_SIGNATURE)
}

proof fn lemma_scan_slot(b: Seq<u8>, ncmds: nat, table_end: int, i: nat, off: int, anchor: Option<Anchor>)
    requires
        HEADER_SIZE <= off,
        b.len() <= u64::MAX,
        anchor matches Some(a) ==> slot_replaces(b, ncmds, a),
        scan_commands(b, ncmds, table_end, i, off, anchor) matches Ok(Some(_)),
    ensures
        slot_replaces(b, ncmds, scan_commands(b, ncmds, table_end, i, off, anchor)->Ok_0.unwrap()),
    decreases ncmds - i,
{
    if i < ncmds && off + 8 <= b.len() {
        let cmd = u32_at(b, off);
        let size = u32_at(b, off + 4);
        if !(size < 8 || off + size > b.len()) {
            let r = anchor_step(b, ncmds, table_end, i, off, cmd, size, anchor);
            let paired: Result<Option<Anchor>, RewriteError> = if anchor is None && cmd == LC_DATA_IN_CODE
                && size == LINKEDIT_DATA_COMMAND_SIZE && i + 1 < ncmds {
                let next_off = off + size;
                if next_off + 8 > b.len() {
                    Err(RewriteError::Malformed(MSG_TRUNCATED))
                } else if u32_at(b, next_off) == LC_CODE_SIGNATURE && u32_at(b, next_off + 4)
                    == LINKEDIT_DATA_COMMAND_SIZE {
                    Ok(Some(Anchor { offset: off as u64, size: (size + 16) as u64, command_count: 2 }))
                } else {
                    Ok(anchor)
                }
            } else {
                Ok(anchor)
            };
            if let Ok(pa) = paired {
                if let Some(a) = pa {
                    assert((a.offset as int) == off || pa == anchor);
                    assert(slot_replaces(b, ncmds, a));
                }
                if let Ok(a2) = r {
                    if let Some(a) = a2 {
                        assert(slot_replaces(b, ncmds, a));
                    }
                    lemma_scan_slot(b, ncmds, table_end, i + 1, off + size, a2);
                }
            }
        }
    }
}

proof fn lemma_splice_outside(s: Seq<u8>, off: int, n: Seq<u8>, j: int)
    requires
        0 <= off,
        off + n.len() <= s.len(),
        0 <= j < s.len(),
        j < off || j >= off + n.len(),
    ensures
        splice(s, off, n).len() == s.len(),
        splice(s, off, n)[j] == s[j],
{
}

proof fn lemma_splice_u32(s: Seq<u8>, off: int, v: u64)
    requires
        0 <= off,
        off + 4 <= s.len(),
        v <= 0xffff_ffff,
    ensures
        splice(s, off, le_bytes(v, 4)).len() == s.len(),
        u32_at(splice(s, off, le_bytes(v, 4)), off) == v,
{
    let t = splice(s, off, le_bytes(v, 4));
    assert(t.subrange(off, off + 4) =~= le_bytes(v, 4));
    crate::bytes::lemma_le_value_of_bytes(v, 4);
    assert(v & 0xffff_ffff == v) by (bit_vector)
        requires
            v <= 0xffff_ffff,
    ;
}

/// The new `LC_LOAD_DYLIB` takes the place of the commands it replaces, and
/// the header's command count follows: replacing an `LC_DATA_IN_CODE` +
/// `LC_CODE_SIGNATURE` pair leaves one command fewer, replacing a lone
/// `LC_CODE_SIGNATURE` leaves the count as it was.
pub proof fn lemma_macho_command_count(b: Seq<u8>, name: Seq<u8>)
    requires
        b.len() <= u64::MAX,
        spec_rewrite_macho(b, name) is Ok,
    ensures
        ({
            let out = spec_rewrite_macho(b, name)->Ok_0;
            exists|off: int|
                {
                    &&& HEADER_SIZE <= off
                    &&& off + 8 <= b.len()
                    &&& #[trigger] u32_at(out, off) == LC_LOAD_DYLIB
                    &&& (u32_at(b, off) == LC_DATA_IN_CODE && u32_at(b, off + 16) == LC_CODE_SIGNATURE
                        && u32_at(out, 16) == u32_at(b, 16) - 1) || (u32_at(b, off) == LC_CODE_SIGNATURE
                        && u32_at(out, 16) == u32_at(b, 16))
                }
        }),
{
    let ncmds = u32_at(b, 16);
    let sizeofcmds = u32_at(b, 20);
    let table_end = HEADER_SIZE + sizeofcmds;
    crate::bytes::lemma_le_value_4_bound(b.subrange(16, 20));
    crate::bytes::lemma_le_value_4_bound(b.subrange(20, 24));
    let anchor = spec_find_anchor(b, ncmds as nat, sizeofcmds as nat)->Ok_0;
    lemma_scan_slot(b, ncmds as nat, table_end as int, 0, HEADER_SIZE as int, None);
    let off = anchor.offset as int;
    let new_size = dylib_command_size(name.len());
    let delta = new_size - anchor.size;
    let a_end = anchor.offset + anchor.size;
    let shifted = shift_range(b, a_end, table_end, delta);
    let clear_end = if anchor.offset + new_size <= b.len() {
        anchor.offset + new_size
    } else {
        b.len() as int
    };
    let cleared = zero_range(shifted, anchor.offset as int, clear_end);
    let h1 = splice(cleared, off, le_bytes(LC_LOAD_DYLIB, 4));
    let h2 = splice(h1, off + 4, le_bytes(new_size, 4));
    let h3 = splice(h2, off + 8, le_bytes(DYLIB_COMMAND_HEADER_SIZE, 4));
    let h4 = splice(h3, off + 12, le_bytes(2, 4));
    let h5 = splice(h4, off + 16, le_bytes(0x10000, 4));
    let headed = splice(h5, off + 20, le_bytes(0x10000, 4));
    assert(headed == with_dylib_header(cleared, off, new_size));
    let named = splice(headed, off + DYLIB_COMMAND_HEADER_SIZE, name);
    let newcount = ((ncmds - anchor.command_count + 1) as u32) as u64;
    let sized = splice(named, 20, le_bytes(((sizeofcmds + delta) as u32) as u64, 4));
    let out = splice(sized, 16, le_bytes(newcount, 4));
    assert(out == spec_rewrite_macho(b, name)->Ok_0);
    lemma_splice_u32(cleared, off, LC_LOAD_DYLIB);
    assert(u32_at(headed, off) == LC_LOAD_DYLIB) by {
        assert(headed.subrange(off, off + 4) =~= h1.subrange(off, off + 4));
    }
    assert(u32_at(out, off) == LC_LOAD_DYLIB) by {
        assert(out.subrange(off, off + 4) =~= headed.subrange(off, off + 4));
    }
    lemma_splice_u32(sized, 16, newcount);
    assert(newcount == ncmds - anchor.command_count + 1);
}

} // verus!
