//! ABI model → C type and symbol naming helpers.
use vstd::prelude::*;
use vstd::string::*;

use crate::abi::{AbiArg, AbiFunction, AbiValueKind};
use crate::text::{dec, push_dec, str_eq};

verus! {

/// `os_shim_{sym}`: the shared core entry point name.
pub open spec fn spec_os_shim_name(sym: Seq<char>) -> Seq<char> {
    "os_shim_"@ + sym
}

/// `os_shim_{sym}` — the shared core entry point name.
pub fn os_shim_name(sym: &str) -> (r: String)
    ensures
        r@ == spec_os_shim_name(sym@),
{
    let mut out = String::from_str("os_shim_");
    out.append(sym);
    out
}

/// The host libc symbol a default forward calls: `exit` becomes `_exit`.
pub open spec fn spec_c_host_symbol(sym: Seq<char>) -> Seq<char> {
    if sym == "exit"@ {
        "_exit"@
    } else {
        sym
    }
}

/// Host libc symbol to call from a default forward stub.
pub fn c_host_symbol(sym: &str) -> (r: &str)
    ensures
        r@ == spec_c_host_symbol(sym@),
{
    if str_eq(sym, "exit") {
        "_exit"
    } else {
        sym
    }
}

/// BridgeSupport type codes that map to C `long`.
pub open spec fn is_long_code(t: Seq<char>) -> bool {
    t == "q"@ || t == "Q"@ || t == "d"@ || t == "D"@ || t == "L"@ || t == "l"@
}

fn long_code(t: &str) -> (r: bool)
    ensures
        r == is_long_code(t@),
{
    str_eq(t, "q") || str_eq(t, "Q") || str_eq(t, "d") || str_eq(t, "D") || str_eq(t, "L") || str_eq(
        t,
        "l",
    )
}

/// The C type of a scalar (or unknown) slot from its BridgeSupport code;
/// `string` is the spelling used for `*` (C strings).
pub open spec fn scalar_c_type(code: Option<String>, string: Seq<char>) -> Seq<char> {
    match code {
        Some(t) => if is_long_code(t@) {
            "long"@
        } else if t@ == "*"@ {
            string
        } else {
            "int"@
        },
        None => "int"@,
    }
}

/// C parameter type for one argument slot.
pub open spec fn spec_c_param_type(arg: AbiArg) -> Seq<char> {
    match arg.kind {
        AbiValueKind::Void => "void"@,
        AbiValueKind::FunctionPointer => "void *"@,
        AbiValueKind::Pointer | AbiValueKind::Object => "void *"@,
        AbiValueKind::Scalar | AbiValueKind::Unknown(_) => scalar_c_type(arg.bridgesupport_type, "const char *"@),
    }
}

/// C parameter type for one BridgeSupport arg slot.
pub fn c_param_type(arg: &AbiArg) -> (r: &'static str)
    ensures
        r@ == spec_c_param_type(*arg),
{
    match arg.kind {
        AbiValueKind::Void => "void",
        AbiValueKind::FunctionPointer => "void *",
        AbiValueKind::Pointer | AbiValueKind::Object => "void *",
        AbiValueKind::Scalar | AbiValueKind::Unknown(_) => match &arg.bridgesupport_type {
            Some(t) => {
                if long_code(t.as_str()) {
                    "long"
                } else if str_eq(t.as_str(), "*") {
                    "const char *"
                } else {
                    "int"
                }
            },
            None => "int",
        },
    }
}

/// C return type of a function.
pub open spec fn spec_c_return_type(func: AbiFunction) -> Seq<char> {
    match func.retval.kind {
        AbiValueKind::Void => "void"@,
        AbiValueKind::Pointer | AbiValueKind::Object => "void *"@,
        AbiValueKind::FunctionPointer => "void *"@,
        AbiValueKind::Scalar | AbiValueKind::Unknown(_) => scalar_c_type(func.retval.bridgesupport_type, "char *"@),
    }
}

/// C return type for a BridgeSupport function.
pub fn c_return_type(func: &AbiFunction) -> (r: &'static str)
    ensures
        r@ == spec_c_return_type(*func),
{
    match func.retval.kind {
        AbiValueKind::Void => "void",
        AbiValueKind::Pointer | AbiValueKind::Object => "void *",
        AbiValueKind::FunctionPointer => "void *",
        AbiValueKind::Scalar | AbiValueKind::Unknown(_) => match &func.retval.bridgesupport_type {
            Some(t) => {
                if long_code(t.as_str()) {
                    "long"
                } else if str_eq(t.as_str(), "*") {
                    "char *"
                } else {
                    "int"
                }
            },
            None => "int",
        },
    }
}

/// `a{i}`: the name of argument `i`.
pub open spec fn arg_name(i: nat) -> Seq<char> {
    "a"@ + dec(i)
}

/// `{type} a{i}`: parameter `i` of a parameter list.
pub open spec fn param_item(args: Seq<AbiArg>, i: nat) -> Seq<char> {
    spec_c_param_type(args[i as int]) + " a"@ + dec(i)
}

/// The first `n` (at least one) parameters, joined by `, `.
pub open spec fn param_join(args: Seq<AbiArg>, n: nat) -> Seq<char>
    decreases n,
{
    if n <= 1 {
        param_item(args, 0)
    } else {
        param_join(args, (n - 1) as nat) + ", "@ + param_item(args, (n - 1) as nat)
    }
}

/// The first `n` (at least one) argument names, joined by `, `.
pub open spec fn name_join(n: nat) -> Seq<char>
    decreases n,
{
    if n <= 1 {
        arg_name(0)
    } else {
        name_join((n - 1) as nat) + ", "@ + arg_name((n - 1) as nat)
    }
}

/// `(type a0, type a1, …)` contents; `void` when there are no arguments.
pub open spec fn spec_c_param_list(func: AbiFunction) -> Seq<char> {
    if func.args@.len() == 0 {
        "void"@
    } else {
        param_join(func.args@, func.args@.len())
    }
}

/// `a0, a1, …`; empty when there are no arguments.
pub open spec fn spec_c_arg_names(func: AbiFunction) -> Seq<char> {
    if func.args@.len() == 0 {
        Seq::empty()
    } else {
        name_join(func.args@.len())
    }
}

fn push_param_item(out: &mut String, func: &AbiFunction, i: usize)
    requires
        i < func.args@.len(),
    ensures
        final(out)@ == old(out)@ + param_item(func.args@, i as nat),
{
    out.append(c_param_type(&func.args[i]));
    out.append(" a");
    push_dec(out, i as u64);
    assert(out@ =~= old(out)@ + param_item(func.args@, i as nat));
}

/// Comma-separated C parameter list `(type name, …)`.
pub fn c_param_list(func: &AbiFunction) -> (r: String)
    ensures
        r@ == spec_c_param_list(*func),
{
    if func.args.len() == 0 {
        return String::from_str("void");
    }
    let mut out = String::new();
    push_param_item(&mut out, func, 0);
    assert(out@ =~= param_join(func.args@, 1));
    let mut i: usize = 1;
    while i < func.args.len()
        invariant
            1 <= i <= func.args.len(),
            out@ == param_join(func.args@, i as nat),
        decreases func.args.len() - i,
    {
        out.append(", ");
        push_param_item(&mut out, func, i);
        i = i + 1;
    }
    out
}

/// Comma-separated argument names `a0, a1, …`.
pub fn c_arg_names(func: &AbiFunction) -> (r: String)
    ensures
        r@ == spec_c_arg_names(*func),
{
    if func.args.len() == 0 {
        return String::new();
    }
    let mut out = String::from_str("a");
    push_dec(&mut out, 0);
    let mut i: usize = 1;
    while i < func.args.len()
        invariant
            1 <= i <= func.args.len(),
            out@ == name_join(i as nat),
        decreases func.args.len() - i,
    {
        let ghost before = out@;
        out.append(", a");
        push_dec(&mut out, i as u64);
        assert(out@ =~= before + ", "@ + arg_name(i as nat)) by {
            assert(", a"@ =~= ", "@ + "a"@) by {
                reveal_strlit(", a");
                reveal_strlit(", ");
                reveal_strlit("a");
            }
        }
        i = i + 1;
    }
    out
}

} // verus!
