//! Compiler/builder glue contract for shared OS emulation code generation:
//! the traits concrete recompilers implement per backend, and the data
//! model they exchange.
use vstd::prelude::*;
use vstd::string::*;

use crate::page::MemorySpec;
use crate::syscall::SyscallTable;
use crate::target_core::{Backend, GuestAddr, MemWidth};

verus! {

/// Compile-time memory abstraction: the emit-side view of memory, used to
/// reason about address spaces, page properties and access sizes while
/// emitting code.
pub trait GuestMemory<B: Backend> {
    /// Readable page size in bytes for the address space being emitted for.
    fn emit_page_size(&self) -> u64;

    /// Emit the address translation / data access sequence for a read of
    /// the requested width at the current top-of-stack address.
    fn emit_load(&mut self, backend: &mut B, width: MemWidth, signed: bool);

    /// Emit the address translation / data access sequence for a write of
    /// the requested width at the current top-of-stack address.
    fn emit_store(&mut self, backend: &mut B, width: MemWidth);
}

/// A single guest memory access operation.
#[derive(Debug, Clone, Copy)]
pub struct MemoryAccessOp {
    pub width: MemWidth,
    pub write: bool,
    pub signed: bool,
}

/// One `_dispatch(hash_id, argc, argv)` megabinary entry.
#[derive(Debug, Clone, Copy)]
pub struct DispatchEntry {
    pub hash_id: u64,
    pub guest_address: GuestAddr,
}

/// Redirect hook description used while emitting a PLT stub.
#[derive(Debug, Clone)]
pub struct PltRedirect {
    pub guest_symbol: String,
    pub import_name: String,
    pub import_module: String,
}

/// All OS glue that must be reserved before emitting a compiled binary.
#[derive(Debug, Clone, Default)]
pub struct OsGlueSpec {
    pub redirects: Vec<PltRedirect>,
    pub memory: MemorySpec,
}

/// The ABI function surface as the glue signatures name it.
#[derive(Debug, Clone, Default)]
pub struct AbiSpec;

/// Compile-time memory code generator.
pub trait MemoryCodegen<B: Backend> {
    /// Emit a guest memory access sequence for the given operation.
    fn emit_memory_access(&mut self, backend: &mut B, op: &MemoryAccessOp);

    /// Emit page-table / paging-walk setup (required glue, not per-access).
    fn emit_page_table_glue(&mut self, backend: &mut B, spec: &MemorySpec);
}

/// Compile-time syscall/osfuncall code generator.
pub trait SyscallCodegen<B: Backend> {
    /// Emit syscall-number dispatch for the given syscall table.
    fn emit_syscall_dispatch(&mut self, backend: &mut B, table: &SyscallTable);

    /// Emit a host-call stub for a redirected ABI function.
    fn emit_osfuncall_stub(&mut self, backend: &mut B, spec: &AbiSpec, symbol: &str);
}

/// Compile-time redirect stub code generator.
pub trait RedirectCodegen<B: Backend> {
    /// What emitting the stub for `redirect` from generator state `before`
    /// and backend state `backend` leaves as `after` and `after_backend`; a
    /// generator that states nothing makes no promise.
    open spec fn spec_redirect_stub(before: &Self, backend: B, redirect: PltRedirect, after: &Self, after_backend: B) -> bool {
        true
    }

    /// Emit a PLT-hook stub for the given redirect description.
    fn emit_redirect_stub(&mut self, backend: &mut B, redirect: &PltRedirect)
        ensures
            Self::spec_redirect_stub(&*old(self), *old(backend), *redirect, &*final(self), *final(backend)),
    ;
}

/// Implemented by concrete recompilers/builders that emit OS emulation glue
/// code for a backend `B`.
pub trait BuildGlue<B: Backend>: GuestMemory<B> + MemoryCodegen<B> + SyscallCodegen<B> + RedirectCodegen<B> {
    /// Emit the `OsOp` sequence that jumps to a guest address.
    fn emit_jump_to_address(&mut self, backend: &mut B, target: GuestAddr);

    /// Reserve import slots, stub functions and data segments described by
    /// `spec`, or fail if the builder cannot satisfy a request.
    fn reserve_os_glue(&mut self, backend: &mut B, spec: &OsGlueSpec) -> Result<(), GlueError>;

    /// Emit the `_dispatch(hash_id, argc, argv)` entry point.
    fn emit_dispatch_entry(&mut self, backend: &mut B, entries: &[DispatchEntry]);

    /// Emit a PLT-hook redirect stub; by default the redirect codegen's.
    fn emit_plt_stub(&mut self, backend: &mut B, redirect: &PltRedirect)
        default_ensures
            Self::spec_redirect_stub(&*old(self), *old(backend), *redirect, &*final(self), *final(backend)),
    {
        self.emit_redirect_stub(backend, redirect);
    }

    /// Emit all memory-glue helpers for the given `MemorySpec`.
    fn emit_memory_glue(&mut self, backend: &mut B, spec: &MemorySpec) -> Result<(), GlueError>;
}

/// Errors returned by `BuildGlue` reservation / emission.
#[derive(Debug, Clone, PartialEq, Eq)]
pub enum GlueError {
    NotSupported(String),
    OutOfSlots,
}

impl GlueError {
    /// Human-readable description.
    pub fn message(&self) -> (r: String)
        ensures
            r@ == match self {
                GlueError::NotSupported(s) => "glue operation not supported: "@ + s@,
                GlueError::OutOfSlots => "out of OS glue slots"@,
            },
    {
        match self {
            GlueError::NotSupported(s) => {
                let mut out = String::from_str("glue operation not supported: ");
                out.append(s.as_str());
                out
            },
            GlueError::OutOfSlots => String::from_str("out of OS glue slots"),
        }
    }
}

} // verus!
