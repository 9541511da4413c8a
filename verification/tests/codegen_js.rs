use lib::build_glue::{GlueError, MemoryAccessOp, MemoryCodegen};
use lib::page::MemorySpec;
use lib::page_codegen::{emit_js_data_access, emit_wax_memory_access, JsBackend, MinimalMemoryCodegen};
use lib::target_core::{Backend, MemWidth, OsOp};

#[test]
fn js_backend_push_pop() {
    let mut out = String::new();
    let mut backend = JsBackend::new(&mut out);
    backend.op(OsOp::PushU64(42));
    backend.op(OsOp::Pop);
    let s = out.as_str();
    assert!(s.contains("osStack.push(42n)"));
    assert!(s.contains("osStack.pop()"));
}

#[test]
fn js_backend_load_writes_dataview() {
    let mut out = String::new();
    let mut backend = JsBackend::new(&mut out);
    backend.op(OsOp::PushU64(0x1000));
    backend.op(OsOp::Load { width: MemWidth::W32, signed: false });
    let s = out.as_str();
    assert!(s.contains("let __addr = osStack.pop();"));
    assert!(s.contains("getUint32(0,true)"));
    assert!(s.contains("new DataView"));
    assert!(s.contains("osStack.push(4096n);"));
    assert!(s.contains("new DataView($._sys('memory').buffer,"));
    assert!(s.contains("$.get_page(Number(__addr))"));
    assert!(s.contains("osStack.push("));
}

#[test]
fn js_backend_store_swaps_operands() {
    let mut out = String::new();
    let mut backend = JsBackend::new(&mut out);
    backend.op(OsOp::PushU64(0x1234));
    backend.op(OsOp::PushU64(0xCAFE_BABE));
    backend.op(OsOp::Store { width: MemWidth::W32 });
    let s = out.as_str();
    assert!(s.contains("let __val = osStack.pop(); let __addr = osStack.pop();"));
    assert!(s.contains("setUint32(0,Number(__val)&0xFFFFFFFF,true)"));
}

#[test]
fn minimal_memory_codegen_wax_load() {
    let mut backend: Vec<OsOp> = Vec::new();
    let mut codegen = MinimalMemoryCodegen;
    let op = MemoryAccessOp { width: MemWidth::W8, write: false, signed: true };
    codegen.emit_memory_access(&mut backend, &op);
    assert!(backend.iter().any(|o| matches!(o, OsOp::Load { width: MemWidth::W8, signed: true })));
}

#[test]
fn js_backend_exact_lines() {
    let mut out = String::new();
    let mut backend = JsBackend::new(&mut out);
    assert_eq!(backend.helper_prefix, "$");
    backend.op(OsOp::Ecall { may_await: true });
    backend.op(OsOp::Jump { target: 255 });
    backend.op(OsOp::TailCall { helper: "h".into() });
    backend.op(OsOp::Trap);
    backend.op(OsOp::PushU32(7));
    assert_eq!(
        out,
        "let __ecall = osStack.pop(); let __ret = await $.ecall(__ecall); osStack.push(__ret);\n\
throw new Error('jump to 0x' + (255).toString(16) + ' not resolved');\n\
return $.tailCall('h', osStack);\n\
throw new Error('os trap');\n\
osStack.push(7n);\n"
    );
}

#[test]
fn js_read_and_write_expressions() {
    let mut out = String::new();
    let backend = JsBackend::new(&mut out);
    assert_eq!(
        backend.memory_read_expr("a", MemWidth::W16, true),
        "(()=>{let __dv=new DataView($._sys('memory').buffer,$.get_page(Number(a)),2);return __dv.getInt16(0,true);})()"
    );
    assert_eq!(
        backend.memory_write_expr("a", "v", MemWidth::W64),
        "(()=>{let __dv=new DataView($._sys('memory').buffer,$.get_page(Number(a)),8);__dv.setBigUint64(0,v,true);})();"
    );
    assert_eq!(backend.width_bytes(MemWidth::W128), 16);
}

#[test]
fn wax_store_and_js_data_access() {
    let mut ops: Vec<OsOp> = Vec::new();
    emit_wax_memory_access(&mut ops, &MemoryAccessOp { width: MemWidth::W64, write: true, signed: false });
    emit_js_data_access(&mut ops, MemWidth::W16, &MemorySpec::wasm_64k());
    assert_eq!(ops, vec![OsOp::Store { width: MemWidth::W64 }, OsOp::Load { width: MemWidth::W16, signed: false }]);
    let mut codegen = MinimalMemoryCodegen;
    codegen.emit_page_table_glue(&mut ops, &MemorySpec::wasm_64k());
    assert_eq!(ops.len(), 2);
    assert_eq!(GlueError::OutOfSlots.message(), "out of OS glue slots");
    assert_eq!(GlueError::NotSupported("x".into()).message(), "glue operation not supported: x");
}
