//! Backend-neutral syscall dispatch tables: argument sources, saves,
//! memory stores, result handling and termination of each handler.
use vstd::prelude::*;
use vstd::multiset::Multiset;

verus! {

broadcast use vstd::seq_lib::group_to_multiset_ensures, vstd::multiset::group_multiset_axioms;

/// Describes how to produce one parameter for a handler function.
#[derive(Debug, Clone, Copy, PartialEq, Eq)]
pub enum ParamSource {
    /// Read an `i64` local and wrap it to `i32` for the handler.
    LocalI64AsI32(u32),
    /// Read an `i32` local directly (no truncation needed).
    LocalI32(u32),
    /// Push a constant `i32` value (e.g. a fixed fd or flags value).
    ConstI32(i32),
    /// Push a constant `i64` value.
    ConstI64(i64),
}

/// A single save operation: spill a local to a global before the call.
#[derive(Debug, Clone, Copy, PartialEq, Eq)]
pub struct SavePair {
    /// Source local index (read with `local.get`).
    pub local_idx: u32,
    /// Destination global index (written with `global.set`).
    pub global_idx: u32,
}

/// Writes a local value to a specific linear-memory address before the call.
#[derive(Debug, Clone, Copy, PartialEq, Eq)]
pub struct MemoryStore {
    /// Memory address to write to.
    pub addr: u32,
    /// Source local index (read with `local.get`).
    pub value_local: u32,
    /// If `true`, the local has type `i64` and must be wrapped to `i32` before storing.
    pub value_is_i64: bool,
}

/// One handler for a specific Linux syscall number.
#[derive(Debug, Clone)]
pub struct SyscallEntry {
    /// Backend-specific function/index of the handler (e.g. a WASI import).
    pub func_idx: u32,
    /// How to produce each parameter the handler expects.
    pub param_map: Vec<ParamSource>,
    /// Globals to spill before marshalling handler params.
    pub saves: Vec<SavePair>,
    /// If `Some(local)`: store the handler's result value into this guest local.
    pub result_local: Option<u32>,
    /// If `true`, negate a non-zero return value before storing it.
    pub negate_nonzero_result: bool,
    /// If `true`, the handler returns a value that needs to be stashed or dropped.
    pub has_return: bool,
    /// If `true`, this syscall never returns.
    pub terminates: bool,
    /// Memory writes to perform before marshalling handler params.
    pub memory_stores: Vec<MemoryStore>,
    /// If `Some(offset)`: load a value from this memory offset on success.
    pub load_mem_on_success: Option<u32>,
}

/// Complete dispatch table, sorted by syscall number.
pub struct SyscallTable {
    entries: Vec<(u64, SyscallEntry)>,
}

/// Sorted by syscall number (ties in any order).
pub open spec fn sorted_by_number(s: Seq<(u64, SyscallEntry)>) -> bool {
    forall|i: int, j: int| 0 <= i < j < s.len() ==> (#[trigger] s[i]).0 <= (#[trigger] s[j]).0
}

/// No two entries share a syscall number.
pub open spec fn distinct_numbers(s: Seq<(u64, SyscallEntry)>) -> bool {
    forall|i: int, j: int| 0 <= i < j < s.len() ==> (#[trigger] s[i]).0 != (#[trigger] s[j]).0
}

/// Two lists sorted by number, holding the same entries, with no number
/// twice, are equal.
pub proof fn lemma_sorted_permutation_unique(a: Seq<(u64, SyscallEntry)>, b: Seq<(u64, SyscallEntry)>)
    requires
        sorted_by_number(a),
        sorted_by_number(b),
        distinct_numbers(a),
        a.to_multiset() == b.to_multiset(),
    ensures
        a == b,
    decreases a.len(),
{
    vstd::seq_lib::to_multiset_len(a);
    vstd::seq_lib::to_multiset_len(b);
    if a.len() == 0 {
        assert(b.to_multiset().len() == 0);
        assert(b =~= a);
    } else {
        assert(b.len() == a.len());
        assert(a.to_multiset().count(b[0]) > 0);
        assert(a.contains(b[0]));
        let k = choose|k: int| 0 <= k < a.len() && a[k] == b[0];
        assert(b.to_multiset().count(a[0]) > 0);
        assert(b.contains(a[0]));
        let j = choose|j: int| 0 <= j < b.len() && b[j] == a[0];
        if k != 0 {
            assert(a[0].0 <= a[k].0);
            assert(b[0].0 <= b[j].0);
            assert(a[0].0 != a[k].0);
        }
        let a1 = a.drop_first();
        let b1 = b.drop_first();
        assert(a.remove(0) =~= a1);
        assert(b.remove(0) =~= b1);
        vstd::seq_lib::to_multiset_remove(a, 0);
        vstd::seq_lib::to_multiset_remove(b, 0);
        assert forall|p: int, q: int| 0 <= p < q < a1.len() implies (#[trigger] a1[p]).0 <= (#[trigger] a1[q]).0 by {
            assert(a[p + 1].0 <= a[q + 1].0);
        }
        assert forall|p: int, q: int| 0 <= p < q < b1.len() implies (#[trigger] b1[p]).0 <= (#[trigger] b1[q]).0 by {
            assert(b[p + 1].0 <= b[q + 1].0);
        }
        assert forall|p: int, q: int| 0 <= p < q < a1.len() implies (#[trigger] a1[p]).0 != (#[trigger] a1[q]).0 by {
            assert(a[p + 1].0 != a[q + 1].0);
        }
        lemma_sorted_permutation_unique(a1, b1);
        assert(a =~= seq![a[0]] + a1);
        assert(b =~= seq![b[0]] + b1);
    }
}

impl SyscallTable {
    /// The entries, in table order.
    pub closed spec fn spec_entries(&self) -> Seq<(u64, SyscallEntry)> {
        self.entries@
    }

    /// Construct from an unsorted list of `(syscall_number, entry)` pairs:
    /// the same entries, sorted by syscall number.
    pub fn new(entries: Vec<(u64, SyscallEntry)>) -> (t: Self)
        ensures
            sorted_by_number(t.spec_entries()),
            t.spec_entries().to_multiset() == entries@.to_multiset(),
    {
        let ghost input = entries@;
        let mut rest = entries;
        let mut out: Vec<(u64, SyscallEntry)> = Vec::new();
        while rest.len() > 0
            invariant
                sorted_by_number(out@),
                out@.to_multiset().add(rest@.to_multiset()) == input.to_multiset(),
            decreases rest.len(),
        {
            let ghost before_rest = rest@;
            let ghost before_out = out@;
            let x = rest.pop().unwrap();
            proof {
                assert(before_rest =~= rest@.push(x));
            }
            let mut p: usize = 0;
            while p < out.len() && out[p].0 <= x.0
                invariant
                    p <= out@.len(),
                    out@ == before_out,
                    forall|k: int| 0 <= k < p ==> (#[trigger] out@[k]).0 <= x.0,
                decreases out.len() - p,
            {
                p = p + 1;
            }
            let ghost gx = x;
            out.insert(p, x);
            proof {
                assert(out@ == before_out.insert(p as int, gx));
                assert forall|i: int, j: int| 0 <= i < j < out@.len() implies (#[trigger] out@[i]).0
                    <= (#[trigger] out@[j]).0 by {
                    if i < p && j < p {
                        assert(before_out[i].0 <= before_out[j].0);
                    } else if i < p && j == p {
                    } else if i < p {
                        assert(before_out[i].0 <= before_out[j - 1].0);
                    } else if i == p {
                        if p < before_out.len() {
                            assert(before_out[p as int].0 > gx.0);
                            if j - 1 > p {
                                assert(before_out[p as int].0 <= before_out[j - 1].0);
                            }
                        }
                    } else {
                        assert(before_out[i - 1].0 <= before_out[j - 1].0);
                    }
                }
                assert(out@.to_multiset() == before_out.to_multiset().insert(gx));
                assert(before_rest.to_multiset() == rest@.to_multiset().insert(gx));
                assert(out@.to_multiset().add(rest@.to_multiset()) =~= before_out.to_multiset().add(
                    before_rest.to_multiset(),
                ));
            }
        }
        assert(rest@.to_multiset() =~= Multiset::empty());
        assert(out@.to_multiset().add(rest@.to_multiset()) =~= out@.to_multiset());
        SyscallTable { entries: out }
    }

    /// The sorted entries.
    pub fn entries(&self) -> (r: &[(u64, SyscallEntry)])
        ensures
            r@ == self.spec_entries(),
    {
        self.entries.as_slice()
    }
}

} // verus!
