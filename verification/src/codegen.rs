//! Generate C core and interposer bridge sources from an ABI spec and the
//! handler registry.
use vstd::prelude::*;
use vstd::string::*;

use crate::abi::{find_named, function_names, AbiSpec};
use crate::daemon_shim::{register_daemon_overrides, spec_execve_source, DEFAULT_BACKEND_ID, DEFAULT_SOCKET_ENV};
use crate::forward::spec_weak_forward;
use crate::registry::{spec_interposer_bridge, ShimRegistry};
use crate::text::{lemma_sorted_names, sorted_names, str_eq, string_views, views};

verus! {

/// Which C outputs to emit.
#[derive(Debug, Clone, Copy, PartialEq, Eq)]
pub enum COutputKind {
    Core,
    InterposerBridge,
}

/// Which symbols to generate, and a label for the generated sources.
#[derive(Debug, Clone)]
pub struct CodegenConfig {
    /// The symbols to generate when `all_symbols` is off.
    pub symbols: Vec<String>,
    /// Generate every symbol of the spec.
    pub all_symbols: bool,
    /// Where the spec came from, for generated headers.
    pub source_label: String,
}

impl Default for CodegenConfig {
    /// Every symbol of the spec, no label.
    fn default() -> (c: Self)
        ensures
            c.symbols@.len() == 0,
            c.all_symbols,
            c.source_label@ == Seq::<char>::empty(),
    {
        CodegenConfig { symbols: Vec::new(), all_symbols: true, source_label: String::new() }
    }
}

/// One generated source file.
#[derive(Debug, Clone)]
pub struct GeneratedFile {
    pub path: String,
    pub contents: String,
}

/// A generated file as its path and contents.
pub open spec fn file_view(f: GeneratedFile) -> (Seq<char>, Seq<char>) {
    (f.path@, f.contents@)
}

/// The generated files as paths and contents.
pub open spec fn file_views(v: Seq<GeneratedFile>) -> Seq<(Seq<char>, Seq<char>)> {
    v.map_values(|f: GeneratedFile| file_view(f))
}

/// The symbols to generate: every symbol of the spec (sorted, without
/// repeats), or the configured list.
pub open spec fn spec_resolve_symbols(spec: AbiSpec, config: CodegenConfig) -> Seq<Seq<char>> {
    if config.all_symbols {
        sorted_names(function_names(spec.functions@))
    } else {
        string_views(config.symbols@)
    }
}

/// `core/{sym}.c`.
pub open spec fn core_path(sym: Seq<char>) -> Seq<char> {
    "core/"@ + sym + ".c"@
}

/// `interposer/{sym}.c`.
pub open spec fn interposer_path(sym: Seq<char>) -> Seq<char> {
    "interposer/"@ + sym + ".c"@
}

/// The core body for `sym`: the daemon override for `execve` when the
/// daemon is on, else the weak forward; none when the spec lacks `sym`.
pub open spec fn core_body(spec: AbiSpec, sym: Seq<char>, with_daemon: bool) -> Option<Seq<char>> {
    match find_named(spec.functions@, sym) {
        None => None,
        Some(f) => Some(
            if with_daemon && sym == "execve"@ {
                spec_execve_source(DEFAULT_BACKEND_ID@, DEFAULT_SOCKET_ENV@)
            } else {
                spec_weak_forward(f)
            },
        ),
    }
}

/// The interposer bridge for `sym`; none when the spec lacks `sym`.
pub open spec fn bridge_body(spec: AbiSpec, sym: Seq<char>) -> Option<Seq<char>> {
    match find_named(spec.functions@, sym) {
        None => None,
        Some(f) => Some(spec_interposer_bridge(f)),
    }
}

/// One file at `path` if there is a body.
pub open spec fn opt_file(path: Seq<char>, body: Option<Seq<char>>) -> Seq<(Seq<char>, Seq<char>)> {
    match body {
        Some(b) => seq![(path, b)],
        None => Seq::empty(),
    }
}

/// The files for one symbol: its core file, then its interposer file; a
/// daemon-handled `execve` gets its core file only.
pub open spec fn files_for(spec: AbiSpec, sym: Seq<char>, core: bool, interposer: bool, with_daemon: bool) -> Seq<
    (Seq<char>, Seq<char>),
> {
    if core && with_daemon && sym == "execve"@ {
        opt_file(core_path(sym), core_body(spec, sym, with_daemon))
    } else {
        (if core {
            opt_file(core_path(sym), core_body(spec, sym, with_daemon))
        } else {
            Seq::empty()
        }) + (if interposer {
            opt_file(interposer_path(sym), bridge_body(spec, sym))
        } else {
            Seq::empty()
        })
    }
}

/// The files for each of `syms`, in order.
pub open spec fn files_for_all(
    spec: AbiSpec,
    syms: Seq<Seq<char>>,
    core: bool,
    interposer: bool,
    with_daemon: bool,
) -> Seq<(Seq<char>, Seq<char>)>
    decreases syms.len(),
{
    if syms.len() == 0 {
        Seq::empty()
    } else {
        files_for_all(spec, syms.drop_last(), core, interposer, with_daemon) + files_for(
            spec,
            syms.last(),
            core,
            interposer,
            with_daemon,
        )
    }
}

/// All generated files: those of each symbol, then, when the daemon is on
/// and `execve` was not among the symbols, its core file.
pub open spec fn spec_generate_c(
    spec: AbiSpec,
    syms: Seq<Seq<char>>,
    core: bool,
    interposer: bool,
    with_daemon: bool,
) -> Seq<(Seq<char>, Seq<char>)> {
    files_for_all(spec, syms, core, interposer, with_daemon) + if core && with_daemon && !syms.contains("execve"@) {
        opt_file("core/execve.c"@, core_body(spec, "execve"@, with_daemon))
    } else {
        Seq::empty()
    }
}

/// Whether `kinds` asks for `kind`.
pub open spec fn wants(kinds: Seq<COutputKind>, kind: COutputKind) -> bool {
    kinds.contains(kind)
}

fn contains_kind(kinds: &[COutputKind], kind: COutputKind) -> (r: bool)
    ensures
        r == wants(kinds@, kind),
{
    let mut i: usize = 0;
    while i < kinds.len()
        invariant
            i <= kinds@.len(),
            forall|k: int| 0 <= k < i ==> kinds@[k] != kind,
        decreases kinds.len() - i,
    {
        let same = match (kinds[i], kind) {
            (COutputKind::Core, COutputKind::Core) => true,
            (COutputKind::InterposerBridge, COutputKind::InterposerBridge) => true,
            _ => false,
        };
        if same {
            assert(kinds@[i as int] == kind);
            return true;
        }
        i = i + 1;
    }
    false
}

/// The symbols to generate for `spec` under `config`.
fn resolve_symbols(spec: &AbiSpec, config: &CodegenConfig) -> (r: Vec<String>)
    ensures
        string_views(r@) == spec_resolve_symbols(*spec, *config),
{
    let names: Vec<&str> = if config.all_symbols {
        spec.symbol_names()
    } else {
        let mut v: Vec<&str> = Vec::new();
        let mut i: usize = 0;
        while i < config.symbols.len()
            invariant
                i <= config.symbols@.len(),
                views(v@) == string_views(config.symbols@.take(i as int)),
            decreases config.symbols.len() - i,
        {
            let ghost before = v@;
            let s = config.symbols[i].as_str();
            v.push(s);
            assert(views(v@) =~= views(before).push(s@));
            assert(string_views(config.symbols@.take(i + 1)) =~= string_views(config.symbols@.take(i as int)).push(
                config.symbols@[i as int]@,
            ));
            i = i + 1;
        }
        assert(config.symbols@.take(i as int) =~= config.symbols@);
        v
    };
    proof {
        if config.all_symbols {
            lemma_sorted_names(views(names@), function_names(spec.functions@));
        }
    }
    let mut out: Vec<String> = Vec::new();
    let mut k: usize = 0;
    while k < names.len()
        invariant
            k <= names@.len(),
            string_views(out@) == views(names@).take(k as int),
        decreases names.len() - k,
    {
        let ghost before = out@;
        out.push(String::from_str(names[k]));
        assert(string_views(out@) =~= string_views(before).push(names@[k as int]@));
        assert(views(names@).take(k + 1) =~= views(names@).take(k as int).push(names@[k as int]@));
        k = k + 1;
    }
    assert(views(names@).take(k as int) =~= views(names@));
    out
}

fn push_file(files: &mut Vec<GeneratedFile>, dir: &str, sym: &str, contents: String)
    ensures
        file_views(final(files)@) == file_views(old(files)@).push((dir@ + sym@ + ".c"@, contents@)),
{
    let mut path = String::from_str(dir);
    path.append(sym);
    path.append(".c");
    let ghost before = files@;
    files.push(GeneratedFile { path, contents });
    assert(file_views(files@) =~= file_views(before).push((dir@ + sym@ + ".c"@, contents@)));
}

/// Generate C shim files for `spec` under `config`.
pub fn generate_c(spec: &AbiSpec, config: &CodegenConfig, kinds: &[COutputKind], with_daemon: bool) -> (r: Result<
    Vec<GeneratedFile>,
    String,
>)
    ensures
        r is Ok,
        file_views(r.unwrap()@) == spec_generate_c(
            *spec,
            spec_resolve_symbols(*spec, *config),
            wants(kinds@, COutputKind::Core),
            wants(kinds@, COutputKind::InterposerBridge),
            with_daemon,
        ),
{
    let symbols = resolve_symbols(spec, config);
    let mut registry = ShimRegistry::new();
    if with_daemon {
        register_daemon_overrides(&mut registry);
    }
    let emit_core = contains_kind(kinds, COutputKind::Core);
    let emit_interposer = contains_kind(kinds, COutputKind::InterposerBridge);
    let ghost syms = string_views(symbols@);

    let mut files: Vec<GeneratedFile> = Vec::new();
    let mut i: usize = 0;
    while i < symbols.len()
        invariant
            i <= symbols@.len(),
            syms == string_views(symbols@),
            forall|s: Seq<char>| #[trigger] registry.has_override(s) == (with_daemon && s == "execve"@),
            with_daemon ==> forall|f| #[trigger] registry.override_core("execve"@, f) == Some(
                spec_execve_source(DEFAULT_BACKEND_ID@, DEFAULT_SOCKET_ENV@),
            ),
            with_daemon ==> forall|f| #[trigger] registry.override_bridge("execve"@, f) == Some(
                spec_interposer_bridge(f),
            ),
            file_views(files@) == files_for_all(*spec, syms.take(i as int), emit_core, emit_interposer, with_daemon),
        decreases symbols.len() - i,
    {
        let sym = symbols[i].as_str();
        let ghost before = file_views(files@);
        proof {
            assert(syms.take(i + 1).drop_last() =~= syms.take(i as int));
            assert(syms.take(i + 1).last() == sym@);
        }
        let is_daemon_execve = with_daemon && str_eq(sym, "execve");
        if emit_core && is_daemon_execve {
            if let Some(body) = registry.emit_core(spec, sym) {
                push_file(&mut files, "core/", sym, body);
            }
        } else {
            if emit_core {
                if let Some(body) = registry.emit_core(spec, sym) {
                    push_file(&mut files, "core/", sym, body);
                }
            }
            let ghost mid = file_views(files@);
            if emit_interposer {
                if let Some(body) = registry.emit_interposer_bridge(spec, sym) {
                    push_file(&mut files, "interposer/", sym, body);
                }
            }
            proof {
                let c = if emit_core {
                    opt_file(core_path(sym@), core_body(*spec, sym@, with_daemon))
                } else {
                    Seq::empty()
                };
                assert(mid =~= before + c);
            }
        }
        proof {
            let fr = files_for(*spec, sym@, emit_core, emit_interposer, with_daemon);
            assert(file_views(files@) =~= before + fr);
        }
        i = i + 1;
    }
    assert(syms.take(i as int) =~= syms);

    let mut has_execve = false;
    let mut j: usize = 0;
    while j < symbols.len()
        invariant
            j <= symbols@.len(),
            syms == string_views(symbols@),
            has_execve == syms.take(j as int).contains("execve"@),
        decreases symbols.len() - j,
    {
        proof {
            assert(syms.take(j + 1) =~= syms.take(j as int).push(syms[j as int]));
            crate::text::lemma_contains_push(syms.take(j as int), syms[j as int], "execve"@);
        }
        if str_eq(symbols[j].as_str(), "execve") {
            has_execve = true;
        }
        j = j + 1;
    }
    assert(syms.take(j as int) =~= syms);
    if emit_core && with_daemon && !has_execve {
        if let Some(body) = registry.emit_core(spec, "execve") {
            let ghost b = body@;
            let ghost pre = files@;
            files.push(GeneratedFile { path: String::from_str("core/execve.c"), contents: body });
            assert(file_views(files@) =~= file_views(pre).push(("core/execve.c"@, b)));
        }
    }
    assert(file_views(files@) =~= spec_generate_c(*spec, syms, emit_core, emit_interposer, with_daemon));
    Ok(files)
}

} // verus!
