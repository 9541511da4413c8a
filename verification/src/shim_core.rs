//! The shared C shim core: which symbols have checked-in weak `os_shim_*`
//! implementations, and the daemon's strong `execve` override source.
use vstd::prelude::*;

use crate::daemon_shim::{spec_execve_source, DaemonExecveHandler, DEFAULT_BACKEND_ID, DEFAULT_SOCKET_ENV};
use crate::registry::ShimHandler;
use crate::daemon_hook::execve_abi_function;
use crate::text::{chars_of, str_eq};
use vstd::string::*;

verus! {

/// Symbols with checked-in weak `os_shim_*` core implementations.
pub const CORE_SYMBOLS: [&'static str; 7] = ["write", "exit", "printf", "putchar", "strlen", "getenv", "execve"];

/// `symbol` without one leading underscore.
pub open spec fn bare_symbol(symbol: Seq<char>) -> Seq<char> {
    if symbol.len() > 0 && symbol[0] == '_' {
        symbol.drop_first()
    } else {
        symbol
    }
}

/// Whether a shared core implementation exists for `symbol` (a leading
/// underscore, as in Mach-O symbol names, is ignored).
pub fn has_core_impl(symbol: &str) -> (r: bool)
    ensures
        r == crate::text::views(CORE_SYMBOLS@).contains(bare_symbol(symbol@)),
{
    let cs = chars_of(symbol);
    let mut bare = String::new();
    let start: usize = if cs.len() > 0 && cs[0] == '_' { 1 } else { 0 };
    let mut k = start;
    while k < cs.len()
        invariant
            start <= k <= cs@.len(),
            cs@ == symbol@,
            bare@ == cs@.subrange(start as int, k as int),
        decreases cs.len() - k,
    {
        crate::text::push_char(&mut bare, cs[k]);
        k = k + 1;
        assert(bare@ =~= cs@.subrange(start as int, k as int));
    }
    assert(bare@ =~= bare_symbol(symbol@));
    let syms = CORE_SYMBOLS;
    let mut i: usize = 0;
    while i < 7
        invariant
            i <= 7,
            syms@ == CORE_SYMBOLS@,
            bare@ == bare_symbol(symbol@),
            forall|j: int| 0 <= j < i ==> (#[trigger] crate::text::views(syms@)[j]) != bare@,
        decreases 7 - i,
    {
        if str_eq(syms[i], bare.as_str()) {
            assert(crate::text::views(syms@)[i as int] == bare@);
            return true;
        }
        i = i + 1;
    }
    false
}

/// The daemon's strong override source for `os_shim_execve`.
pub fn emit_daemon_execve_c() -> (r: String)
    ensures
        r@ == spec_execve_source(DEFAULT_BACKEND_ID@, DEFAULT_SOCKET_ENV@),
{
    DaemonExecveHandler::default().emit_core(&execve_abi_function())
}

} // verus!

