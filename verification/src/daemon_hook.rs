//! Generator for the minimal C execve-interposition stub linked into
//! guest/target binaries: the daemon consult body of `os_shim_execve`,
//! renamed to the requested hook symbol.
use vstd::prelude::*;
use vstd::string::*;

use crate::abi::{AbiArg, AbiFunction, AbiValueKind};
use crate::daemon_shim::{spec_execve_source, DaemonExecveHandler};
use crate::registry::ShimHandler;
use crate::text::{replace_all, replace_str};

verus! {

/// The hook source: the daemon `os_shim_execve` body with every
/// `os_shim_execve` renamed to `hook_symbol_name`.
pub open spec fn spec_execve_hook(hook_symbol_name: Seq<char>, backend_id: Seq<char>, socket_env_var: Seq<char>) -> Seq<
    char,
> {
    replace_all(spec_execve_source(backend_id, socket_env_var), "os_shim_execve"@, hook_symbol_name)
}

/// Emit C source implementing `int <hook_symbol_name>(path, argv, envp)`
/// that consults the daemon over the v2 wire protocol, then calls `execve()`.
pub fn generate_execve_hook_c(hook_symbol_name: &str, backend_id: &str, socket_env_var: &str) -> (r: String)
    ensures
        r@ == spec_execve_hook(hook_symbol_name@, backend_id@, socket_env_var@),
{
    let handler = DaemonExecveHandler {
        backend_id: String::from_str(backend_id),
        socket_env_var: String::from_str(socket_env_var),
    };
    let body = handler.emit_core(&execve_abi_function());
    proof {
        reveal_strlit("os_shim_execve");
    }
    replace_str(body.as_str(), "os_shim_execve", hook_symbol_name)
}

fn pointer_arg(code: &str) -> (a: AbiArg)
    ensures
        a.kind is Pointer,
        a.bridgesupport_type is Some && a.bridgesupport_type.unwrap()@ == code@,
        !a.function_pointer,
        a.pointer,
{
    AbiArg {
        kind: AbiValueKind::Pointer,
        bridgesupport_type: Some(String::from_str(code)),
        function_pointer: false,
        pointer: true,
    }
}

/// `int execve(const char *, char *const [], char *const [])`.
pub(crate) fn execve_abi_function() -> (f: AbiFunction)
    ensures
        f.name@ == "execve"@,
        f.args@.len() == 3,
        f.args@[0].bridgesupport_type.unwrap()@ == "*"@,
        f.args@[1].bridgesupport_type.unwrap()@ == "^*"@,
        f.args@[2].bridgesupport_type.unwrap()@ == "^*"@,
        forall|i: int| 0 <= i < 3 ==> (#[trigger] f.args@[i]).kind is Pointer && f.args@[i].pointer,
        f.retval.kind is Scalar,
        f.retval.bridgesupport_type.unwrap()@ == "i"@,
        !f.variadic,
{
    let mut args: Vec<AbiArg> = Vec::new();
    args.push(pointer_arg("*"));
    args.push(pointer_arg("^*"));
    args.push(pointer_arg("^*"));
    AbiFunction {
        name: String::from_str("execve"),
        args,
        retval: AbiArg {
            kind: AbiValueKind::Scalar,
            bridgesupport_type: Some(String::from_str("i")),
            function_pointer: false,
            pointer: false,
        },
        variadic: false,
    }
}

} // verus!
