//! The `OsOp` stack-machine IR and the `Backend` trait that concrete code
//! generators (WASM, JavaScript, native) implement.
use vstd::prelude::*;

verus! {

/// Guest virtual or physical address.
pub type GuestAddr = u64;

/// Width of a memory access.
#[derive(Debug, Clone, Copy, PartialEq, Eq, Hash)]
pub enum MemWidth {
    W8,
    W16,
    W32,
    W64,
    W128,
}

/// Explicit stack-machine operations used to express guest OS glue.
#[derive(Debug, Clone, PartialEq, Eq)]
pub enum OsOp {
    /// Push an unsigned 64-bit scalar onto the value stack.
    PushU64(u64),
    /// Push an unsigned 32-bit scalar onto the value stack.
    PushU32(u32),
    /// Pop the top value from the stack.
    Pop,
    /// Load a value of the given width from guest memory at the address
    /// currently on top of the value stack.
    Load { width: MemWidth, signed: bool },
    /// Store a value of the given width to guest memory; the value and
    /// address are expected in stack order (value pushed first, address on
    /// top).
    Store { width: MemWidth },
    /// Guest syscall / host-call control transfer; `may_await` when the
    /// backend must support async host delegation.
    Ecall { may_await: bool },
    /// Unconditional branch to a guest address.
    Jump { target: GuestAddr },
    /// Stop with a fault/trap.
    Trap,
    /// Tail-call a host/guest helper identified by a symbolic label.
    TailCall { helper: String },
}

/// Target backend that consumes [`OsOp`] operations.
pub trait Backend: Sized {
    /// What emitting `op` from state `before` leaves as state `after`; a
    /// backend that states nothing makes no promise.
    open spec fn spec_op(before: Self, op: OsOp, after: Self) -> bool {
        true
    }

    /// Emit one stack operation into the backend's own state.
    fn op(&mut self, op: OsOp)
        ensures
            Self::spec_op(*old(self), op, *final(self)),
    ;

    /// Signal that a block of OS-glue operations is complete; by default
    /// nothing happens.
    fn finish(&mut self) {
    }
}

impl Backend for Vec<OsOp> {
    /// A list backend records each operation.
    open spec fn spec_op(before: Self, op: OsOp, after: Self) -> bool {
        after@ == before@.push(op)
    }

    fn op(&mut self, op: OsOp) {
        self.push(op);
    }
}

} // verus!
