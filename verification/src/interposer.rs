//! Naming of the interposer shared library artifact.
use vstd::prelude::*;
use vstd::string::*;

verus! {

/// Basename of the built interposer shared library (without extension).
pub const LIB_BASENAME: &'static str = "libos_interposer";

/// `libos_interposer.dylib` on macOS, `libos_interposer.so` elsewhere.
pub open spec fn spec_lib_file_name(macos: bool) -> Seq<char> {
    LIB_BASENAME@ + "."@ + if macos {
        "dylib"@
    } else {
        "so"@
    }
}

/// File name of the interposer library for the target platform.
pub fn lib_file_name(macos: bool) -> (r: String)
    ensures
        r@ == spec_lib_file_name(macos),
{
    let mut out = String::from_str(LIB_BASENAME);
    out.append(".");
    out.append(if macos { "dylib" } else { "so" });
    out
}

} // verus!
