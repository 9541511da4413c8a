//! Backend-agnostic contract for on-the-fly binary transformation: the
//! trait a transform daemon dispatches to, selected per request by id.
use vstd::prelude::*;
use vstd::string::*;

verus! {

/// Id of the ahead-of-time full-recompile pipeline.
pub const INTEGRATED_RECOMPILE: &'static str = "integrated";

/// Id of the dylib/so load-command rewriter.
pub const SIMPLE_REWRITE: &'static str = "simple-rewrite";

/// Stable identifier a client selects on the wire.
#[derive(Debug, Clone, Copy, PartialEq, Eq, Hash)]
pub struct BackendId(pub &'static str);

impl BackendId {
    /// The ahead-of-time full-recompile pipeline.
    pub fn integrated_recompile() -> (b: BackendId)
        ensures
            b.0@ == INTEGRATED_RECOMPILE@,
    {
        BackendId(INTEGRATED_RECOMPILE)
    }

    /// The dylib/so load-command rewriter (macOS Mach-O, BSD/libc-Linux ELF).
    pub fn simple_rewrite() -> (b: BackendId)
        ensures
            b.0@ == SIMPLE_REWRITE@,
    {
        BackendId(SIMPLE_REWRITE)
    }

    /// The id as text.
    pub fn to_string(&self) -> (r: String)
        ensures
            r@ == self.0@,
    {
        String::from_str(self.0)
    }
}

/// Whether a backend can usefully transform a given input, with free-form
/// reasons when it cannot.
#[derive(Debug, Clone, PartialEq, Eq, Default)]
pub struct Suitability {
    pub suitable: bool,
    pub reasons: Vec<String>,
}

/// Failure to obtain a transformed executable.
#[derive(Debug, Clone)]
pub enum ObtainError {
    Unsuitable(Suitability),
    TransformFailed(String),
}

/// What `{:?}` renders for a list of strings: bracketed, comma-separated,
/// each string quoted with its characters debug-escaped.
pub uninterp spec fn debug_string_list(items: Seq<Seq<char>>) -> Seq<char>;

/// `format!("{:?}", v)` for a list of strings; the rendering is a function
/// of the strings alone, named `debug_string_list`.
#[verifier::external_body]
fn debug_strings(v: &Vec<String>) -> (r: String)
    ensures
        r@ == debug_string_list(crate::text::string_views(v@)),
{
    format!("{:?}", v)
}

/// `unsuitable: …` or `transform failed: …`.
pub open spec fn obtain_error_prefix(e: ObtainError) -> Seq<char> {
    match e {
        ObtainError::Unsuitable(_) => "unsuitable: "@,
        ObtainError::TransformFailed(_) => "transform failed: "@,
    }
}

/// The message of an `ObtainError`.
pub open spec fn spec_obtain_error_message(e: ObtainError) -> Seq<char> {
    match e {
        ObtainError::Unsuitable(s) => "unsuitable: "@ + debug_string_list(
            crate::text::string_views(s.reasons@),
        ),
        ObtainError::TransformFailed(m) => "transform failed: "@ + m@,
    }
}

/// The unsuitable message, given the rendered reason list.
pub fn unsuitable_message(rendered_reasons: &str) -> (r: String)
    ensures
        r@ == "unsuitable: "@ + rendered_reasons@,
{
    let mut out = String::from_str("unsuitable: ");
    out.append(rendered_reasons);
    out
}

impl ObtainError {
    /// Human-readable description: `unsuitable: <reasons, debug-formatted>`
    /// or `transform failed: <message>`.
    pub fn message(&self) -> (r: String)
        ensures
            r@ == spec_obtain_error_message(*self),
            r@.len() >= obtain_error_prefix(*self).len(),
            r@.take(obtain_error_prefix(*self).len() as int) == obtain_error_prefix(*self),
    {
        match self {
            ObtainError::Unsuitable(s) => {
                let list = debug_strings(&s.reasons);
                let out = unsuitable_message(list.as_str());
                assert(out@.take("unsuitable: "@.len() as int) =~= "unsuitable: "@);
                out
            },
            ObtainError::TransformFailed(e) => {
                let mut out = String::from_str("transform failed: ");
                out.append(e.as_str());
                assert(out@.take("transform failed: "@.len() as int) =~= "transform failed: "@);
                out
            },
        }
    }
}

/// How the caller should run a successfully obtained artifact.
#[derive(Debug, Clone, PartialEq, Eq)]
pub enum RunAs {
    /// Caller should `execve` this path directly.
    Exec(String),
}

/// A pluggable on-the-fly transformation strategy. Implementations never
/// mutate the input at `path`; they read it and produce a new, separately
/// cached artifact.
pub trait TransformBackend: Send {
    /// Whether `id` is an id this backend may report; a backend that states
    /// nothing admits any.
    open spec fn id_is(&self, id: Seq<char>) -> bool {
        true
    }

    /// Whether `r` is an answer this backend may give to an analysis of
    /// `path`; a backend that states nothing admits any.
    open spec fn analysis_is(&self, path: Seq<char>, r: Result<Suitability, String>) -> bool {
        true
    }

    /// Whether `r` is a result this backend, in its present state, may give
    /// to an obtain request for `path`; a backend that states nothing admits
    /// any.
    open spec fn obtain_is(&self, path: Seq<char>, r: Result<RunAs, ObtainError>) -> bool {
        true
    }

    /// Stable id this backend registers under; must match the `backend`
    /// string clients pass on the wire.
    fn id(&self) -> (r: BackendId)
        ensures
            self.id_is(r.0@),
    ;

    /// Cheap-ish check: can this backend do anything useful with `path`?
    fn analyze(&self, path: &str) -> (r: Result<Suitability, String>)
        ensures
            self.analysis_is(path@, r),
    ;

    /// Produce (or fetch from cache) a runnable artifact for `path`.
    fn obtain(&mut self, path: &str) -> (r: Result<RunAs, ObtainError>)
        ensures
            old(self).obtain_is(path@, r),
    ;
}

} // verus!
