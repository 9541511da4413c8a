//! Default handler: a weak `os_shim_{sym}` forwarding to the host libc
//! symbol.
use vstd::prelude::*;
use vstd::string::*;

use crate::abi::AbiFunction;
use crate::c_emit::{
    c_arg_names, c_host_symbol, c_param_list, c_return_type, os_shim_name, spec_c_arg_names,
    spec_c_host_symbol, spec_c_param_list, spec_c_return_type, spec_os_shim_name,
};
use crate::registry::ShimHandler;
use crate::text::str_eq;

verus! {

/// The weak forward for `func`: a header naming the symbol, then a weak
/// `os_shim_{sym}` whose body calls the host symbol (returning its value,
/// cast to the C return type, unless that type is `void`).
pub open spec fn spec_weak_forward(func: AbiFunction) -> Seq<char> {
    let sym = func.name@;
    let shim = spec_os_shim_name(sym);
    let host = spec_c_host_symbol(sym);
    let ret_ty = spec_c_return_type(func);
    let params = spec_c_param_list(func);
    let args = spec_c_arg_names(func);
    let head = "/* @generated weak forward — "@ + sym
        + " */\n#include \"os_shim.h\"\n#include <unistd.h>\n#include <stdio.h>\n#include <stdlib.h>\n#include <string.h>\n\n"@;
    if ret_ty == "void"@ {
        head + "__attribute__((weak)) void "@ + shim + "("@ + params + ") {\n    "@ + host + "("@ + args
            + ");\n}\n"@
    } else {
        head + "__attribute__((weak)) "@ + ret_ty + " "@ + shim + "("@ + params + ") {\n    return ("@
            + ret_ty + ")"@ + host + "("@ + args + ");\n}\n"@
    }
}

/// Emit weak `os_shim_{sym}` forwarding to host `{sym}` (or `_exit` for exit).
pub fn emit_weak_forward(func: &AbiFunction) -> (r: String)
    ensures
        r@ == spec_weak_forward(*func),
{
    let sym = func.name.as_str();
    let shim = os_shim_name(sym);
    let host = c_host_symbol(sym);
    let ret_ty = c_return_type(func);
    let params = c_param_list(func);
    let args = c_arg_names(func);

    let mut out = String::from_str("/* @generated weak forward — ");
    out.append(sym);
    out.append(
        " */\n#include \"os_shim.h\"\n#include <unistd.h>\n#include <stdio.h>\n#include <stdlib.h>\n#include <string.h>\n\n",
    );
    if str_eq(ret_ty, "void") {
        out.append("__attribute__((weak)) void ");
        out.append(shim.as_str());
        out.append("(");
        out.append(params.as_str());
        out.append(") {\n    ");
        out.append(host);
        out.append("(");
        out.append(args.as_str());
        out.append(");\n}\n");
    } else {
        out.append("__attribute__((weak)) ");
        out.append(ret_ty);
        out.append(" ");
        out.append(shim.as_str());
        out.append("(");
        out.append(params.as_str());
        out.append(") {\n    return (");
        out.append(ret_ty);
        out.append(")");
        out.append(host);
        out.append("(");
        out.append(args.as_str());
        out.append(");\n}\n");
    }
    out
}

/// A factory of default forward handlers; it stands for no single symbol.
pub struct BridgeSupportForward;

impl ShimHandler for BridgeSupportForward {
    open spec fn spec_has_symbol(&self) -> bool {
        false
    }

    open spec fn core_is(&self, func: AbiFunction, out: Seq<char>) -> bool {
        out == spec_weak_forward(func)
    }

    fn symbol(&self) -> (r: &str) {
        ""
    }

    fn emit_core(&self, func: &AbiFunction) -> (r: String)
        ensures
            r@ == spec_weak_forward(*func),
    {
        emit_weak_forward(func)
    }

    fn is_override(&self) -> (r: bool)
        ensures
            !r,
    {
        false
    }
}

impl BridgeSupportForward {
    /// Build a per-symbol handler instance.
    pub fn for_symbol(_sym: &str) -> (h: BridgeSupportForwardHandler) {
        BridgeSupportForwardHandler
    }
}

/// Per-symbol default forward handler (stateless); it stands for no single
/// symbol either.
pub struct BridgeSupportForwardHandler;

impl ShimHandler for BridgeSupportForwardHandler {
    open spec fn spec_has_symbol(&self) -> bool {
        false
    }

    open spec fn core_is(&self, func: AbiFunction, out: Seq<char>) -> bool {
        out == spec_weak_forward(func)
    }

    fn symbol(&self) -> (r: &str) {
        ""
    }

    fn emit_core(&self, func: &AbiFunction) -> (r: String)
        ensures
            r@ == spec_weak_forward(*func),
    {
        emit_weak_forward(func)
    }
}

} // verus!
