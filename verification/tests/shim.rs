use lib::abi::{AbiArg, AbiFunction, AbiSpec, AbiValueKind, CallingConvention};
use lib::c_emit::{c_arg_names, c_host_symbol, c_param_list, c_param_type, c_return_type, os_shim_name};
use lib::codegen::{generate_c, COutputKind, CodegenConfig};
use lib::daemon_hook::generate_execve_hook_c;
use lib::daemon_shim::{emit_os_shim_execve, register_daemon_overrides, DaemonExecveHandler};
use lib::forward::{emit_weak_forward, BridgeSupportForward};
use lib::registry::{emit_default_interposer_bridge, ResolvedHandler, ShimHandler, ShimRegistry};
use lib::shim_core::{emit_daemon_execve_c, has_core_impl};

fn scalar(t: &str) -> AbiArg {
    AbiArg { kind: AbiValueKind::Scalar, bridgesupport_type: Some(t.into()), function_pointer: false, pointer: false }
}

fn pointer(t: &str) -> AbiArg {
    AbiArg { kind: AbiValueKind::Pointer, bridgesupport_type: Some(t.into()), function_pointer: false, pointer: true }
}

fn write_fn() -> AbiFunction {
    AbiFunction {
        name: "write".into(),
        args: vec![scalar("i"), pointer("^v"), scalar("Q")],
        retval: scalar("q"),
        variadic: false,
    }
}

fn exit_fn() -> AbiFunction {
    AbiFunction { name: "exit".into(), args: vec![scalar("i")], retval: AbiArg::void(), variadic: false }
}

fn execve_fn() -> AbiFunction {
    AbiFunction {
        name: "execve".into(),
        args: vec![pointer("*"), pointer("^*"), pointer("^*")],
        retval: scalar("i"),
        variadic: false,
    }
}

/// The two functions of the sample ABI description (`write`, `exit`).
fn sample_spec() -> AbiSpec {
    AbiSpec { functions: vec![write_fn(), exit_fn()] }
}

#[test]
fn generates_weak_core_c() {
    let spec = sample_spec();
    let files = generate_c(
        &spec,
        &CodegenConfig { source_label: "test".into(), ..Default::default() },
        &[COutputKind::Core],
        false,
    )
    .unwrap();
    let write = files.iter().find(|f| f.path == "core/write.c").unwrap();
    assert!(write.contents.contains("__attribute__((weak))"));
    assert!(write.contents.contains("os_shim_write"));
}

#[test]
fn daemon_execve_is_strong_override() {
    let spec = AbiSpec { functions: vec![execve_fn()] };
    let files = generate_c(
        &spec,
        &CodegenConfig { symbols: vec!["execve".into()], source_label: "test".into(), ..Default::default() },
        &[COutputKind::Core],
        true,
    )
    .unwrap();
    let execve = files.iter().find(|f| f.path == "core/execve.c").unwrap();
    assert!(execve.contents.contains("int os_shim_execve"));
    assert!(!execve.contents.contains("__attribute__((weak))"));
}

#[test]
fn generate_c_orders_files_by_sorted_symbol() {
    let spec = sample_spec();
    let files = generate_c(
        &spec,
        &CodegenConfig::default(),
        &[COutputKind::Core, COutputKind::InterposerBridge],
        false,
    )
    .unwrap();
    let paths: Vec<&str> = files.iter().map(|f| f.path.as_str()).collect();
    assert_eq!(paths, vec!["core/exit.c", "interposer/exit.c", "core/write.c", "interposer/write.c"]);
    assert_eq!(files[1].contents, emit_default_interposer_bridge(&exit_fn(), false));
}

#[test]
fn generate_c_adds_daemon_execve_when_not_listed() {
    let mut spec = sample_spec();
    spec.functions.push(execve_fn());
    let cfg = CodegenConfig { symbols: vec!["write".into()], all_symbols: false, source_label: String::new() };
    let files = generate_c(&spec, &cfg, &[COutputKind::Core], true).unwrap();
    let paths: Vec<&str> = files.iter().map(|f| f.path.as_str()).collect();
    assert_eq!(paths, vec!["core/write.c", "core/execve.c"]);
    assert_eq!(files[1].contents, emit_daemon_execve_c());
    // without the daemon only the listed symbol is emitted
    let files = generate_c(&spec, &cfg, &[COutputKind::Core], false).unwrap();
    assert_eq!(files.len(), 1);
    // unknown symbols produce nothing
    let cfg = CodegenConfig { symbols: vec!["nope".into()], all_symbols: false, source_label: String::new() };
    assert!(generate_c(&spec, &cfg, &[COutputKind::Core, COutputKind::InterposerBridge], false).unwrap().is_empty());
}

#[test]
fn exit_maps_to_underscore_exit() {
    assert_eq!(c_host_symbol("exit"), "_exit");
    assert_eq!(c_host_symbol("write"), "write");
}

#[test]
fn os_shim_name_prefixes_symbol() {
    assert_eq!(os_shim_name("write"), "os_shim_write");
}

#[test]
fn void_return_for_exit() {
    let f = exit_fn();
    assert_eq!(c_return_type(&f), "void");
}

#[test]
fn c_types_and_parameter_lists() {
    let w = write_fn();
    assert_eq!(c_param_type(&w.args[0]), "int");
    assert_eq!(c_param_type(&w.args[1]), "void *");
    assert_eq!(c_param_type(&w.args[2]), "long");
    assert_eq!(c_return_type(&w), "long");
    assert_eq!(c_param_list(&w), "int a0, void * a1, long a2");
    assert_eq!(c_arg_names(&w), "a0, a1, a2");
    let none = AbiFunction { name: "f".into(), args: vec![], retval: scalar("*"), variadic: false };
    assert_eq!(c_param_list(&none), "void");
    assert_eq!(c_arg_names(&none), "");
    assert_eq!(c_return_type(&none), "char *");
    assert_eq!(c_param_type(&AbiArg { kind: AbiValueKind::Unknown("x".into()), ..scalar("*") }), "const char *");
    let many: Vec<AbiArg> = (0..12).map(|_| scalar("i")).collect();
    let f = AbiFunction { name: "g".into(), args: many, retval: AbiArg::void(), variadic: false };
    assert!(c_arg_names(&f).ends_with("a10, a11"));
}

#[test]
fn emits_weak_write_forward() {
    let src = emit_weak_forward(&write_fn());
    assert!(src.contains("__attribute__((weak))"));
    assert!(src.contains("os_shim_write"));
    assert!(src.contains("return (long)write("));
}

#[test]
fn exit_forwards_to_underscore_exit() {
    let src = emit_weak_forward(&exit_fn());
    assert!(src.contains("_exit(a0)"));
}

#[test]
fn weak_forward_exact_text() {
    let src = emit_weak_forward(&exit_fn());
    assert_eq!(
        src,
        "/* @generated weak forward — exit */\n#include \"os_shim.h\"\n#include <unistd.h>\n#include <stdio.h>\n#include <stdlib.h>\n#include <string.h>\n\n__attribute__((weak)) void os_shim_exit(int a0) {\n    _exit(a0);\n}\n"
    );
    let handler = BridgeSupportForward::for_symbol("exit");
    assert_eq!(handler.emit_core(&exit_fn()), src);
}

struct DummyOverride {
    sym: &'static str,
}

impl ShimHandler for DummyOverride {
    fn symbol(&self) -> &str {
        self.sym
    }
    fn emit_core(&self, _func: &AbiFunction) -> String {
        format!("/* override {} */", self.sym)
    }
    fn is_override(&self) -> bool {
        true
    }
}

#[test]
fn override_wins_over_default() {
    let mut reg = ShimRegistry::new();
    reg.register_override(Box::new(DummyOverride { sym: "execve" }));
    let spec = AbiSpec::default();
    assert!(reg.emit_core(&spec, "execve").is_none());
    let f = AbiFunction { name: "execve".into(), args: vec![], retval: AbiArg::void(), variadic: false };
    let spec = AbiSpec { functions: vec![f] };
    let core = reg.emit_core(&spec, "execve").unwrap();
    assert!(core.contains("override execve"));
    assert_eq!(core, "/* override execve */");
    match reg.resolve("execve", &spec.functions[0]) {
        ResolvedHandler::Override(h) => assert_eq!(h.symbol(), "execve"),
        ResolvedHandler::Default => panic!("override expected"),
    }
}

#[test]
fn registry_resolution_and_symbols() {
    let mut reg = ShimRegistry::new();
    let spec = sample_spec();
    assert!(ShimRegistry::has_impl(&spec, &reg, "write"));
    assert!(!ShimRegistry::has_impl(&spec, &reg, "execve"));
    let f = write_fn();
    assert!(matches!(reg.resolve("write", &f), ResolvedHandler::Default));
    assert_eq!(reg.emit_core(&spec, "write").unwrap(), emit_weak_forward(&f));
    register_daemon_overrides(&mut reg);
    assert!(ShimRegistry::has_impl(&spec, &reg, "execve"));
    assert!(matches!(reg.resolve("execve", &f), ResolvedHandler::Override(_)));
    reg.register_override(Box::new(DummyOverride { sym: "write" }));
    reg.register_override(Box::new(DummyOverride { sym: "write" }));
    assert_eq!(reg.emit_core(&spec, "write").unwrap(), "/* override write */");
    let syms = reg.symbols_for_codegen(&spec, &["zeta".to_string(), "write".to_string(), "alpha".to_string()]);
    assert_eq!(syms, vec!["alpha", "execve", "write", "zeta"]);
}

#[test]
fn emits_strong_os_shim_execve() {
    let src = emit_os_shim_execve("integrated", "SPEET_RTD_SOCK");
    assert!(src.contains("int os_shim_execve"));
    assert!(!src.contains("__attribute__((weak))"));
    assert!(src.contains("\"integrated\""));
}

#[test]
fn daemon_handler_defaults() {
    let h = DaemonExecveHandler::default();
    assert_eq!(h.backend_id, "integrated");
    assert_eq!(h.socket_env_var, "SPEET_RTD_SOCK");
    assert_eq!(h.symbol(), "execve");
    assert!(h.is_override());
    assert_eq!(h.emit_core(&write_fn()), emit_os_shim_execve("integrated", "SPEET_RTD_SOCK"));
    assert!(emit_os_shim_execve("b", "ENV_X").contains("getenv(\"ENV_X\")"));
}

#[test]
fn embeds_the_requested_symbol_name_and_backend_id() {
    let src = generate_execve_hook_c("__speet_execve_hook", "integrated", "SPEET_RTD_SOCK");
    assert!(src.contains("__speet_execve_hook"));
    assert!(src.contains("\"integrated\""));
    assert!(src.contains("SPEET_RTD_SOCK"));
}

#[test]
fn different_backend_ids_produce_different_source() {
    let a = generate_execve_hook_c("__os_execve_hook", "simple-rewrite", "SOEL_DAEMON_SOCK");
    assert!(a.contains("\"simple-rewrite\""));
    assert!(!a.contains("__speet_execve_hook"));
}

#[test]
fn hook_renames_every_occurrence() {
    let a = generate_execve_hook_c("hook", "os_shim_execve", "E");
    assert!(!a.contains("os_shim_execve"));
    assert_eq!(a, emit_os_shim_execve("os_shim_execve", "E").replace("os_shim_execve", "hook"));
    assert!(a.contains("int hook(const char *path"));
}

#[test]
fn core_impl_table() {
    assert!(has_core_impl("write"));
    assert!(has_core_impl("_write"));
    assert!(has_core_impl("execve"));
    assert!(!has_core_impl("__write"));
    assert!(!has_core_impl("read"));
}

#[test]
fn abi_spec_queries() {
    let cb = AbiArg {
        kind: AbiValueKind::FunctionPointer,
        bridgesupport_type: Some("^?".into()),
        function_pointer: true,
        pointer: true,
    };
    let qsort = AbiFunction { name: "qsort".into(), args: vec![pointer("^v"), cb], retval: AbiArg::void(), variadic: false };
    let spec = AbiSpec { functions: vec![write_fn(), qsort, exit_fn(), write_fn()] };
    assert_eq!(spec.symbol_names(), vec!["exit", "qsort", "write"]);
    assert!(spec.accepts_function_pointers("qsort"));
    assert!(!spec.accepts_function_pointers("write"));
    assert!(!spec.accepts_function_pointers("missing"));
    assert_eq!(spec.fn_ptr_symbols(), vec!["qsort"]);
    assert_eq!(spec.lookup("exit").unwrap().name, "exit");
    assert!(spec.lookup("nope").is_none());
}

#[test]
fn calling_convention_wraps() {
    let cc = CallingConvention { arg_locals: vec![1, 2], arg_wrap_i32: vec![true, false], result_local: None, result_extend_i32: false };
    assert!(cc.wraps_i32(0));
    assert!(!cc.wraps_i32(1));
    assert!(!cc.wraps_i32(7));
}
