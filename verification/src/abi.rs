//! Structured ABI model of C/Objective-C callable symbols, and the
//! calling-convention description used to marshal redirected calls.
use vstd::prelude::*;

use crate::text::{sorted_unique, str_eq, strictly_sorted, views};

verus! {

/// High-level classification of an argument or return value.
#[derive(Debug, Clone, PartialEq, Eq)]
pub enum AbiValueKind {
    Void,
    Scalar,
    Pointer,
    FunctionPointer,
    /// Objective-C object / id-like pointer (BridgeSupport `type="@..."`).
    Object,
    /// Unrecognized or unsupported BridgeSupport encoding.
    Unknown(String),
}

/// One parameter or return slot in an ABI function signature.
#[derive(Debug, Clone, PartialEq, Eq)]
pub struct AbiArg {
    pub kind: AbiValueKind,
    /// BridgeSupport `type` attribute when present (e.g. `i`, `*`, `^?`).
    pub bridgesupport_type: Option<String>,
    pub function_pointer: bool,
    pub pointer: bool,
}

impl AbiArg {
    /// The `void` slot: no type attribute, neither pointer flag.
    pub fn void() -> (a: Self)
        ensures
            a.kind is Void,
            a.bridgesupport_type is None,
            !a.function_pointer,
            !a.pointer,
    {
        AbiArg { kind: AbiValueKind::Void, bridgesupport_type: None, function_pointer: false, pointer: false }
    }
}

/// One C/Objective-C callable symbol from an ABI description file.
#[derive(Debug, Clone, PartialEq, Eq)]
pub struct AbiFunction {
    pub name: String,
    pub args: Vec<AbiArg>,
    pub retval: AbiArg,
    pub variadic: bool,
}

/// Parsed ABI description for one framework or library surface.
#[derive(Debug, Clone, Default, PartialEq, Eq)]
pub struct AbiSpec {
    pub functions: Vec<AbiFunction>,
}

/// An argument that takes a function pointer, by flag or by kind.
pub open spec fn is_fn_ptr_arg(a: AbiArg) -> bool {
    a.function_pointer || a.kind is FunctionPointer
}

/// Whether any argument of `f` takes a function pointer.
pub open spec fn has_fn_ptr_arg(f: AbiFunction) -> bool {
    exists|j: int| 0 <= j < f.args@.len() && is_fn_ptr_arg(#[trigger] f.args@[j])
}

/// The first function named `name`, scanning from the front.
pub open spec fn find_named(fs: Seq<AbiFunction>, name: Seq<char>) -> Option<AbiFunction>
    decreases fs.len(),
{
    if fs.len() == 0 {
        None
    } else if fs[0].name@ == name {
        Some(fs[0])
    } else {
        find_named(fs.drop_first(), name)
    }
}

/// Names of the functions that take a function pointer, in order.
pub open spec fn fn_ptr_names(fs: Seq<AbiFunction>) -> Seq<Seq<char>>
    decreases fs.len(),
{
    if fs.len() == 0 {
        Seq::empty()
    } else if has_fn_ptr_arg(fs.last()) {
        fn_ptr_names(fs.drop_last()).push(fs.last().name@)
    } else {
        fn_ptr_names(fs.drop_last())
    }
}

/// The names of all functions, in order.
pub open spec fn function_names(fs: Seq<AbiFunction>) -> Seq<Seq<char>> {
    fs.map_values(|f: AbiFunction| f.name@)
}

pub proof fn lemma_find_named_some(fs: Seq<AbiFunction>, name: Seq<char>)
    ensures
        find_named(fs, name) is Some ==> find_named(fs, name).unwrap().name@ == name
            && fs.contains(find_named(fs, name).unwrap()),
        find_named(fs, name) is None ==> forall|i: int| 0 <= i < fs.len() ==> #[trigger] fs[i].name@ != name,
    decreases fs.len(),
{
    if fs.len() > 0 {
        lemma_find_named_some(fs.drop_first(), name);
        if find_named(fs, name) is Some && fs[0].name@ != name {
            let k = choose|k: int| 0 <= k < fs.drop_first().len() && fs.drop_first()[k] == find_named(fs, name).unwrap();
            assert(fs[k + 1] == find_named(fs, name).unwrap());
        }
        if find_named(fs, name) is None {
            assert forall|i: int| 0 <= i < fs.len() implies #[trigger] fs[i].name@ != name by {
                if i > 0 {
                    assert(fs.drop_first()[i - 1] == fs[i]);
                }
            }
        }
    }
}

fn any_fn_ptr_arg(f: &AbiFunction) -> (r: bool)
    ensures
        r == has_fn_ptr_arg(*f),
{
    let mut j: usize = 0;
    while j < f.args.len()
        invariant
            j <= f.args.len(),
            forall|k: int| 0 <= k < j ==> !is_fn_ptr_arg(#[trigger] f.args@[k]),
        decreases f.args.len() - j,
    {
        let a = &f.args[j];
        if a.function_pointer || matches!(a.kind, AbiValueKind::FunctionPointer) {
            assert(is_fn_ptr_arg(f.args@[j as int]));
            return true;
        }
        j = j + 1;
    }
    false
}

impl AbiSpec {
    /// All symbol names in this spec, sorted and deduplicated.
    pub fn symbol_names(&self) -> (r: Vec<&str>)
        ensures
            strictly_sorted(views(r@)),
            forall|x: Seq<char>| views(r@).contains(x) <==> function_names(self.functions@).contains(x),
    {
        let mut names: Vec<&str> = Vec::new();
        let mut i: usize = 0;
        while i < self.functions.len()
            invariant
                i <= self.functions.len(),
                views(names@) == function_names(self.functions@.take(i as int)),
            decreases self.functions.len() - i,
        {
            let ghost before = names@;
            let nm = self.functions[i].name.as_str();
            names.push(nm);
            assert(views(names@) =~= views(before).push(nm@));
            assert(function_names(self.functions@.take(i + 1)) =~= function_names(
                self.functions@.take(i as int),
            ).push(self.functions@[i as int].name@));
            i = i + 1;
        }
        assert(self.functions@.take(i as int) =~= self.functions@);
        sorted_unique(&names)
    }

    /// The first function named `name`.
    pub fn lookup(&self, name: &str) -> (r: Option<&AbiFunction>)
        ensures
            match r {
                Some(f) => find_named(self.functions@, name@) == Some(*f),
                None => find_named(self.functions@, name@) is None,
            },
    {
        let mut i: usize = 0;
        assert(self.functions@.skip(0) =~= self.functions@);
        while i < self.functions.len()
            invariant
                i <= self.functions.len(),
                find_named(self.functions@, name@) == find_named(self.functions@.skip(i as int), name@),
            decreases self.functions.len() - i,
        {
            let f = &self.functions[i];
            assert(self.functions@.skip(i as int)[0] == self.functions@[i as int]);
            if str_eq(f.name.as_str(), name) {
                return Some(f);
            }
            assert(self.functions@.skip(i as int).drop_first() =~= self.functions@.skip(i + 1));
            i = i + 1;
        }
        None
    }

    /// Whether `name` accepts at least one function-pointer argument.
    pub fn accepts_function_pointers(&self, name: &str) -> (r: bool)
        ensures
            r == match find_named(self.functions@, name@) {
                Some(f) => has_fn_ptr_arg(f),
                None => false,
            },
    {
        match self.lookup(name) {
            Some(f) => any_fn_ptr_arg(f),
            None => false,
        }
    }

    /// Names of the symbols whose signatures include function-pointer
    /// parameters, in spec order.
    pub fn fn_ptr_symbols(&self) -> (r: Vec<&str>)
        ensures
            views(r@) == fn_ptr_names(self.functions@),
    {
        let mut out: Vec<&str> = Vec::new();
        let mut i: usize = 0;
        while i < self.functions.len()
            invariant
                i <= self.functions.len(),
                views(out@) == fn_ptr_names(self.functions@.take(i as int)),
            decreases self.functions.len() - i,
        {
            let f = &self.functions[i];
            let ghost pre = self.functions@.take(i as int);
            let ghost before = out@;
            assert(self.functions@.take(i + 1).drop_last() =~= pre);
            assert(self.functions@.take(i + 1).last() == *f);
            if any_fn_ptr_arg(f) {
                out.push(f.name.as_str());
                assert(views(out@) =~= views(before).push(f.name@));
            }
            i = i + 1;
        }
        assert(self.functions@.take(i as int) =~= self.functions@);
        out
    }
}

/// Description of argument/result local-slot assignments for one
/// redirected call.
#[derive(Debug, Clone, PartialEq, Eq, Default)]
pub struct CallingConvention {
    /// Local indices (register slots) holding the callee's arguments, in
    /// order.
    pub arg_locals: Vec<u32>,
    /// Per-argument: whether the register's (64-bit) value must be narrowed
    /// with `i32.wrap_i64` before the call.
    pub arg_wrap_i32: Vec<bool>,
    /// Local index the return value should be stored into, if any.
    pub result_local: Option<u32>,
    /// Whether the call's WASM result is `i32` and must be widened with
    /// `i64.extend_i32_u` before storing into `result_local`.
    pub result_extend_i32: bool,
}

impl CallingConvention {
    /// Whether argument index `i` needs narrowing; indices past the list
    /// do not.
    pub fn wraps_i32(&self, i: usize) -> (r: bool)
        ensures
            r == (i < self.arg_wrap_i32@.len() && self.arg_wrap_i32@[i as int]),
    {
        if i < self.arg_wrap_i32.len() {
            self.arg_wrap_i32[i]
        } else {
            false
        }
    }
}

} // verus!
