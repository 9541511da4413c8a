use lib::linux_wasi::{LinuxToWasi, WasiImports, IOVEC_SCRATCH_OFFSET};
use lib::syscall::{MemoryStore, ParamSource, SyscallEntry, SyscallTable};

fn imports() -> WasiImports {
    WasiImports { fd_write: 10, fd_read: 11, fd_close: 12, proc_exit: 13 }
}

#[test]
fn table_is_sorted_by_syscall_number() {
    let b = LinuxToWasi::new(imports());
    let table = b.build_table(|r| 100 + r as u32);
    let nums: Vec<u64> = table.entries().iter().map(|(n, _)| *n).collect();
    assert_eq!(nums, vec![57, 63, 64, 93, 94]);
}

#[test]
fn read_entry_marshals_one_iovec() {
    let b = LinuxToWasi::new(imports());
    assert_eq!(b.iovec_scratch_offset, IOVEC_SCRATCH_OFFSET);
    let table = b.build_table(|r| 100 + r as u32);
    let (_, read) = &table.entries()[1];
    assert_eq!(read.func_idx, 11);
    assert_eq!(
        read.param_map,
        vec![
            ParamSource::LocalI64AsI32(110),
            ParamSource::ConstI32(0x200),
            ParamSource::ConstI32(1),
            ParamSource::ConstI32(0x208),
        ]
    );
    assert_eq!(
        read.memory_stores,
        vec![
            MemoryStore { addr: 0x200, value_local: 111, value_is_i64: true },
            MemoryStore { addr: 0x204, value_local: 112, value_is_i64: true },
        ]
    );
    assert_eq!(read.result_local, Some(110));
    assert!(read.negate_nonzero_result && read.has_return && !read.terminates);
    assert_eq!(read.load_mem_on_success, Some(0x208));
}

#[test]
fn exit_entries_terminate() {
    let table = LinuxToWasi::new(imports()).build_table(|r| r as u32);
    for (n, e) in &table.entries()[3..] {
        assert!(*n == 93 || *n == 94);
        assert_eq!(e.func_idx, 13);
        assert!(e.terminates && !e.has_return);
        assert_eq!(e.result_local, None);
        assert_eq!(e.param_map, vec![ParamSource::LocalI64AsI32(10)]);
    }
    let (n, close) = &table.entries()[0];
    assert_eq!(*n, 57);
    assert_eq!(close.func_idx, 12);
    assert!(close.memory_stores.is_empty());
}

fn entry(idx: u32) -> SyscallEntry {
    SyscallEntry {
        func_idx: idx,
        param_map: vec![],
        saves: vec![],
        result_local: None,
        negate_nonzero_result: false,
        has_return: false,
        terminates: false,
        memory_stores: vec![],
        load_mem_on_success: None,
    }
}

#[test]
fn syscall_table_sorts_and_keeps_all_entries() {
    let t = SyscallTable::new(vec![(5, entry(0)), (1, entry(1)), (3, entry(2)), (1, entry(3))]);
    let nums: Vec<u64> = t.entries().iter().map(|(n, _)| *n).collect();
    assert_eq!(nums, vec![1, 1, 3, 5]);
    let mut idx: Vec<u32> = t.entries().iter().map(|(_, e)| e.func_idx).collect();
    idx.sort();
    assert_eq!(idx, vec![0, 1, 2, 3]);
    assert_eq!(t.entries()[2].1.func_idx, 2);
}
