//! RV64 Linux syscall to WASI preview1 mapping: which WASI imports are
//! needed and how each supported syscall marshals its arguments.
use vstd::prelude::*;

use crate::syscall::{
    distinct_numbers, lemma_sorted_permutation_unique, sorted_by_number, MemoryStore, ParamSource,
    SyscallEntry, SyscallTable,
};

verus! {

/// The 16-byte memory scratch area offset used for iovec marshalling.
pub const IOVEC_SCRATCH_OFFSET: u32 = 0x200;

/// WASI preview1 function indices required by the Linux→WASI mapping.
#[derive(Clone, Debug, PartialEq, Eq)]
pub struct WasiImports {
    /// `wasi_snapshot_preview1::fd_write`
    pub fd_write: u32,
    /// `wasi_snapshot_preview1::fd_read`
    pub fd_read: u32,
    /// `wasi_snapshot_preview1::fd_close`
    pub fd_close: u32,
    /// `wasi_snapshot_preview1::proc_exit`
    pub proc_exit: u32,
}

/// Builder for an RV64 Linux → WASI preview1 syscall table.
pub struct LinuxToWasi {
    /// WASI import indices.
    pub imports: WasiImports,
    /// Offset of the 16-byte iovec scratch area.
    pub iovec_scratch_offset: u32,
}

/// A read/write handler: fd from `a0`, one iovec at `off` built from
/// `a1` (buffer) and `a2` (length), the byte count read back from `off + 8`,
/// a non-zero errno negated into `a0`.
pub open spec fn is_iovec_entry(e: SyscallEntry, func: u32, off: u32, a0: u32, a1: u32, a2: u32) -> bool {
    &&& e.func_idx == func
    &&& e.param_map@ == seq![
        ParamSource::LocalI64AsI32(a0),
        ParamSource::ConstI32(off as i32),
        ParamSource::ConstI32(1),
        ParamSource::ConstI32((off + 8) as i32),
    ]
    &&& e.saves@.len() == 0
    &&& e.result_local == Some(a0)
    &&& e.negate_nonzero_result
    &&& e.has_return
    &&& !e.terminates
    &&& e.memory_stores@ == seq![
        MemoryStore { addr: off, value_local: a1, value_is_i64: true },
        MemoryStore { addr: (off + 4) as u32, value_local: a2, value_is_i64: true },
    ]
    &&& e.load_mem_on_success == Some((off + 8) as u32)
}

/// The close handler: fd from `a0`, a non-zero errno negated into `a0`.
pub open spec fn is_close_entry(e: SyscallEntry, func: u32, a0: u32) -> bool {
    &&& e.func_idx == func
    &&& e.param_map@ == seq![ParamSource::LocalI64AsI32(a0)]
    &&& e.saves@.len() == 0
    &&& e.result_local == Some(a0)
    &&& e.negate_nonzero_result
    &&& e.has_return
    &&& !e.terminates
    &&& e.memory_stores@.len() == 0
    &&& e.load_mem_on_success is None
}

/// An exit handler: status from `a0`; it never returns.
pub open spec fn is_exit_entry(e: SyscallEntry, func: u32, a0: u32) -> bool {
    &&& e.func_idx == func
    &&& e.param_map@ == seq![ParamSource::LocalI64AsI32(a0)]
    &&& e.saves@.len() == 0
    &&& e.result_local is None
    &&& !e.negate_nonzero_result
    &&& !e.has_return
    &&& e.terminates
    &&& e.memory_stores@.len() == 0
    &&& e.load_mem_on_success is None
}

/// The table: close (57), read (63), write (64), exit (93) and exit_group
/// (94), in syscall-number order, with `a0`..`a2` the locals of registers
/// x10..x12.
pub open spec fn is_linux_wasi_table(
    t: Seq<(u64, SyscallEntry)>,
    imports: WasiImports,
    off: u32,
    a0: u32,
    a1: u32,
    a2: u32,
) -> bool {
    &&& t.len() == 5
    &&& t[0].0 == 57 && is_close_entry(t[0].1, imports.fd_close, a0)
    &&& t[1].0 == 63 && is_iovec_entry(t[1].1, imports.fd_read, off, a0, a1, a2)
    &&& t[2].0 == 64 && is_iovec_entry(t[2].1, imports.fd_write, off, a0, a1, a2)
    &&& t[3].0 == 93 && is_exit_entry(t[3].1, imports.proc_exit, a0)
    &&& t[4].0 == 94 && is_exit_entry(t[4].1, imports.proc_exit, a0)
}

fn iovec_entry(func: u32, off: u32, a0: u32, a1: u32, a2: u32) -> (e: SyscallEntry)
    requires
        off <= u32::MAX - 8,
    ensures
        is_iovec_entry(e, func, off, a0, a1, a2),
{
    let mut params: Vec<ParamSource> = Vec::new();
    params.push(ParamSource::LocalI64AsI32(a0));
    params.push(ParamSource::ConstI32(off as i32));
    params.push(ParamSource::ConstI32(1));
    params.push(ParamSource::ConstI32((off + 8) as i32));
    let mut stores: Vec<MemoryStore> = Vec::new();
    stores.push(MemoryStore { addr: off, value_local: a1, value_is_i64: true });
    stores.push(MemoryStore { addr: off + 4, value_local: a2, value_is_i64: true });
    let e = SyscallEntry {
        func_idx: func,
        param_map: params,
        saves: Vec::new(),
        result_local: Some(a0),
        negate_nonzero_result: true,
        has_return: true,
        terminates: false,
        memory_stores: stores,
        load_mem_on_success: Some(off + 8),
    };
    assert(e.param_map@ =~= seq![
        ParamSource::LocalI64AsI32(a0),
        ParamSource::ConstI32(off as i32),
        ParamSource::ConstI32(1),
        ParamSource::ConstI32((off + 8) as i32),
    ]);
    assert(e.memory_stores@ =~= seq![
        MemoryStore { addr: off, value_local: a1, value_is_i64: true },
        MemoryStore { addr: (off + 4) as u32, value_local: a2, value_is_i64: true },
    ]);
    e
}

fn single_param_entry(func: u32, a0: u32, exits: bool) -> (e: SyscallEntry)
    ensures
        exits ==> is_exit_entry(e, func, a0),
        !exits ==> is_close_entry(e, func, a0),
{
    let mut params: Vec<ParamSource> = Vec::new();
    params.push(ParamSource::LocalI64AsI32(a0));
    let e = SyscallEntry {
        func_idx: func,
        param_map: params,
        saves: Vec::new(),
        result_local: if exits { None } else { Some(a0) },
        negate_nonzero_result: !exits,
        has_return: !exits,
        terminates: exits,
        memory_stores: Vec::new(),
        load_mem_on_success: None,
    };
    assert(e.param_map@ =~= seq![ParamSource::LocalI64AsI32(a0)]);
    e
}

impl LinuxToWasi {
    pub fn new(imports: WasiImports) -> (b: Self)
        ensures
            b.imports == imports,
            b.iovec_scratch_offset == IOVEC_SCRATCH_OFFSET,
    {
        LinuxToWasi { imports, iovec_scratch_offset: IOVEC_SCRATCH_OFFSET }
    }

    /// Build the `SyscallTable` for the RV64 Linux ABI.
    ///
    /// `xn_local(n)` maps a RISC-V register index to the caller's local/index
    /// representing that register.
    pub fn build_table(&self, xn_local: impl Fn(u8) -> u32) -> (t: SyscallTable)
        requires
            self.iovec_scratch_offset <= u32::MAX - 8,
            xn_local.requires((10u8,)),
            xn_local.requires((11u8,)),
            xn_local.requires((12u8,)),
        ensures
            exists|a0: u32, a1: u32, a2: u32|
                xn_local.ensures((10u8,), a0) && xn_local.ensures((11u8,), a1) && xn_local.ensures((12u8,), a2)
                    && is_linux_wasi_table(t.spec_entries(), self.imports, self.iovec_scratch_offset, a0, a1, a2),
    {
        let a0_local = xn_local(10);
        let a1_local = xn_local(11);
        let a2_local = xn_local(12);
        let off = self.iovec_scratch_offset;

        let mut entries: Vec<(u64, SyscallEntry)> = Vec::new();
        entries.push((63, iovec_entry(self.imports.fd_read, off, a0_local, a1_local, a2_local)));
        entries.push((64, iovec_entry(self.imports.fd_write, off, a0_local, a1_local, a2_local)));
        entries.push((57, single_param_entry(self.imports.fd_close, a0_local, false)));
        entries.push((93, single_param_entry(self.imports.proc_exit, a0_local, true)));
        entries.push((94, single_param_entry(self.imports.proc_exit, a0_local, true)));
        let ghost pushed = entries@;
        let t = SyscallTable::new(entries);
        proof {
            let sorted = seq![pushed[2], pushed[0], pushed[1], pushed[3], pushed[4]];
            assert(sorted_by_number(sorted));
            assert(distinct_numbers(sorted));
            assert(sorted.to_multiset() =~= pushed.to_multiset()) by {
                broadcast use vstd::seq_lib::group_to_multiset_ensures, vstd::multiset::group_multiset_axioms;

                assert(pushed =~= seq![pushed[0], pushed[1], pushed[2], pushed[3]].push(pushed[4]));
                assert(sorted =~= seq![pushed[2], pushed[0], pushed[1], pushed[3]].push(pushed[4]));
                assert(seq![pushed[0], pushed[1], pushed[2], pushed[3]] =~= seq![pushed[0], pushed[1], pushed[2]].push(pushed[3]));
                assert(seq![pushed[2], pushed[0], pushed[1], pushed[3]] =~= seq![pushed[2], pushed[0], pushed[1]].push(pushed[3]));
                assert(seq![pushed[0], pushed[1], pushed[2]] =~= seq![pushed[0], pushed[1]].push(pushed[2]));
                assert(seq![pushed[2], pushed[0], pushed[1]] =~= seq![pushed[2], pushed[0]].push(pushed[1]));
                assert(seq![pushed[0], pushed[1]] =~= seq![pushed[0]].push(pushed[1]));
                assert(seq![pushed[2], pushed[0]] =~= seq![pushed[2]].push(pushed[0]));
                assert(seq![pushed[0]] =~= Seq::<(u64, SyscallEntry)>::empty().push(pushed[0]));
                assert(seq![pushed[2]] =~= Seq::<(u64, SyscallEntry)>::empty().push(pushed[2]));
            }
            lemma_sorted_permutation_unique(sorted, t.spec_entries());
            assert(is_linux_wasi_table(t.spec_entries(), self.imports, off, a0_local, a1_local, a2_local));
        }
        t
    }
}

} // verus!
