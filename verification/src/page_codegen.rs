//! Compile-time emitters for guest memory/paging helpers: `OsOp` sequences
//! on a generic `Backend`, and a JavaScript backend that renders them.
use vstd::prelude::*;
use vstd::string::*;

use crate::build_glue::{MemoryAccessOp, MemoryCodegen};
use crate::page::MemorySpec;
use crate::target_core::{Backend, MemWidth, OsOp};
use crate::text::{dec, push_dec, replace_all, replace_str};

verus! {

/// A JavaScript `Backend` that writes statements into a string buffer.
///
/// Generated code assumes a stack-machine runtime variable (default
/// `osStack`) and a linear-memory helper `$.get_page(Number(addr))`.
pub struct JsBackend<'a> {
    pub out: &'a mut String,
    pub stack: &'a str,
    pub memory: &'a str,
    pub helper_prefix: &'a str,
}

/// Bytes moved by an access of width `w`.
pub open spec fn spec_width_bytes(w: MemWidth) -> u8 {
    match w {
        MemWidth::W8 => 1,
        MemWidth::W16 => 2,
        MemWidth::W32 => 4,
        MemWidth::W64 => 8,
        MemWidth::W128 => 16,
    }
}

/// The `DataView` getter for a load.
pub open spec fn getter(w: MemWidth, signed: bool) -> Seq<char> {
    match w {
        MemWidth::W8 => if signed {
            "getInt8(0)"@
        } else {
            "getUint8(0)"@
        },
        MemWidth::W16 => if signed {
            "getInt16(0,true)"@
        } else {
            "getUint16(0,true)"@
        },
        MemWidth::W32 => if signed {
            "getInt32(0,true)"@
        } else {
            "getUint32(0,true)"@
        },
        MemWidth::W64 => "getBigUint64(0,true)"@,
        MemWidth::W128 => "0n /* W128 not supported */"@,
    }
}

/// The `DataView` setter for a store (of the variable `value`).
pub open spec fn setter(w: MemWidth) -> Seq<char> {
    match w {
        MemWidth::W8 => "setUint8(0,Number(value)&0xFF)"@,
        MemWidth::W16 => "setUint16(0,Number(value)&0xFFFF,true)"@,
        MemWidth::W32 => "setUint32(0,Number(value)&0xFFFFFFFF,true)"@,
        MemWidth::W64 => "setBigUint64(0,value,true)"@,
        MemWidth::W128 => "/* W128 not supported */"@,
    }
}

/// A `DataView` over the page holding `addr_var`, `bytes` long.
pub open spec fn dataview(memory: Seq<char>, helper: Seq<char>, addr_var: Seq<char>, w: MemWidth) -> Seq<char> {
    "(()=>{let __dv=new DataView("@ + memory + ".buffer,"@ + helper + ".get_page(Number("@ + addr_var + ")),"@
        + dec(spec_width_bytes(w) as nat) + ");"@
}

/// An expression reading width `w` at `addr_var`.
pub open spec fn read_expr(memory: Seq<char>, helper: Seq<char>, addr_var: Seq<char>, w: MemWidth, signed: bool) -> Seq<
    char,
> {
    dataview(memory, helper, addr_var, w) + "return __dv."@ + getter(w, signed) + ";})()"@
}

/// A statement writing `value_var` with width `w` at `addr_var`: every
/// `value` of the template becomes `value_var`.
pub open spec fn write_stmt(
    memory: Seq<char>,
    helper: Seq<char>,
    addr_var: Seq<char>,
    value_var: Seq<char>,
    w: MemWidth,
) -> Seq<char> {
    replace_all(dataview(memory, helper, addr_var, w) + "__dv."@ + setter(w) + ";})();"@, "value"@, value_var)
}

/// The text one operation appends: its statement line(s), each ended by a
/// line feed.
pub open spec fn js_text(b: JsBackend, op: OsOp) -> Seq<char> {
    let s = b.stack@;
    let h = b.helper_prefix@;
    match op {
        OsOp::PushU64(v) => s + ".push("@ + dec(v as nat) + "n);"@ + "\n"@,
        OsOp::PushU32(v) => s + ".push("@ + dec(v as nat) + "n);"@ + "\n"@,
        OsOp::Pop => s + ".pop();"@ + "\n"@,
        OsOp::Load { width, signed } => "let __addr = "@ + s + ".pop();"@ + "\n"@ + (s + ".push("@ + read_expr(
            b.memory@,
            h,
            "__addr"@,
            width,
            signed,
        ) + ");"@) + "\n"@,
        OsOp::Store { width } => "let __val = "@ + s + ".pop(); let __addr = "@ + s + ".pop();"@ + "\n"@
            + write_stmt(b.memory@, h, "__addr"@, "__val"@, width) + "\n"@,
        OsOp::Ecall { may_await } => "let __ecall = "@ + s + (if may_await {
            ".pop(); let __ret = await "@
        } else {
            ".pop(); let __ret = "@
        }) + h + ".ecall(__ecall); "@ + s + ".push(__ret);"@ + "\n"@,
        OsOp::Jump { target } => "throw new Error('jump to 0x' + ("@ + dec(target as nat)
            + ").toString(16) + ' not resolved');"@ + "\n"@,
        OsOp::TailCall { helper } => "return "@ + h + ".tailCall('"@ + helper@ + "', "@ + s + ");"@ + "\n"@,
        OsOp::Trap => "throw new Error('os trap');"@ + "\n"@,
    }
}

impl<'a> JsBackend<'a> {
    pub fn new(out: &'a mut String) -> (b: Self)
        ensures
            *b.out == *old(out),
            *final(out) == *final(b.out),
            b.stack@ == "osStack"@,
            b.memory@ == "$._sys('memory')"@,
            b.helper_prefix@ == "$"@,
    {
        JsBackend { out, stack: "osStack", memory: "$._sys('memory')", helper_prefix: "$" }
    }

    fn line(&mut self, s: &str)
        ensures
            final(self).out@ == old(self).out@ + s@ + "\n"@,
            final(self).stack == old(self).stack,
            final(self).memory == old(self).memory,
            final(self).helper_prefix == old(self).helper_prefix,
            *final(old(self).out) == *final(final(self).out),
    {
        self.out.append(s);
        self.out.append("\n");
    }

    /// Bytes moved by an access of width `width`.
    pub fn width_bytes(&self, width: MemWidth) -> (r: u8)
        ensures
            r == spec_width_bytes(width),
    {
        match width {
            MemWidth::W8 => 1,
            MemWidth::W16 => 2,
            MemWidth::W32 => 4,
            MemWidth::W64 => 8,
            MemWidth::W128 => 16,
        }
    }

    fn push_dataview(&self, out: &mut String, addr_var: &str, width: MemWidth)
        ensures
            final(out)@ == old(out)@ + dataview(self.memory@, self.helper_prefix@, addr_var@, width),
    {
        out.append("(()=>{let __dv=new DataView(");
        out.append(self.memory);
        out.append(".buffer,");
        out.append(self.helper_prefix);
        out.append(".get_page(Number(");
        out.append(addr_var);
        out.append(")),");
        push_dec(out, self.width_bytes(width) as u64);
        out.append(");");
        assert(final(out)@ =~= old(out)@ + dataview(self.memory@, self.helper_prefix@, addr_var@, width));
    }

    /// An expression that reads `width` bytes at the address in `addr_var`.
    pub fn memory_read_expr(&self, addr_var: &str, width: MemWidth, signed: bool) -> (r: String)
        ensures
            r@ == read_expr(self.memory@, self.helper_prefix@, addr_var@, width, signed),
    {
        let get = match (width, signed) {
            (MemWidth::W8, true) => "getInt8(0)",
            (MemWidth::W8, false) => "getUint8(0)",
            (MemWidth::W16, true) => "getInt16(0,true)",
            (MemWidth::W16, false) => "getUint16(0,true)",
            (MemWidth::W32, true) => "getInt32(0,true)",
            (MemWidth::W32, false) => "getUint32(0,true)",
            (MemWidth::W64, _) => "getBigUint64(0,true)",
            (MemWidth::W128, _) => "0n /* W128 not supported */",
        };
        let mut out = String::new();
        self.push_dataview(&mut out, addr_var, width);
        out.append("return __dv.");
        out.append(get);
        out.append(";})()");
        assert(out@ =~= read_expr(self.memory@, self.helper_prefix@, addr_var@, width, signed));
        out
    }

    /// A statement that writes `value_var` with `width` bytes at the
    /// address in `addr_var`.
    pub fn memory_write_expr(&self, addr_var: &str, value_var: &str, width: MemWidth) -> (r: String)
        ensures
            r@ == write_stmt(self.memory@, self.helper_prefix@, addr_var@, value_var@, width),
    {
        let set = match width {
            MemWidth::W8 => "setUint8(0,Number(value)&0xFF)",
            MemWidth::W16 => "setUint16(0,Number(value)&0xFFFF,true)",
            MemWidth::W32 => "setUint32(0,Number(value)&0xFFFFFFFF,true)",
            MemWidth::W64 => "setBigUint64(0,value,true)",
            MemWidth::W128 => "/* W128 not supported */",
        };
        let mut out = String::new();
        self.push_dataview(&mut out, addr_var, width);
        out.append("__dv.");
        out.append(set);
        out.append(";})();");
        assert(out@ =~= dataview(self.memory@, self.helper_prefix@, addr_var@, width) + "__dv."@ + setter(width)
            + ";})();"@);
        proof {
            reveal_strlit("value");
        }
        replace_str(out.as_str(), "value", value_var)
    }
}

impl<'a> Backend for JsBackend<'a> {
    /// The buffer grows by the operation's statement text; the names stay.
    open spec fn spec_op(before: Self, op: OsOp, after: Self) -> bool {
        &&& after.out@ == before.out@ + js_text(before, op)
        &&& after.stack == before.stack
        &&& after.memory == before.memory
        &&& after.helper_prefix == before.helper_prefix
    }

    fn op(&mut self, op: OsOp) {
        let ghost b = *self;
        let s = self.stack;
        match op {
            OsOp::PushU64(v) => {
                let mut l = String::from_str(s);
                l.append(".push(");
                push_dec(&mut l, v);
                l.append("n);");
                self.line(l.as_str());
            },
            OsOp::PushU32(v) => {
                let mut l = String::from_str(s);
                l.append(".push(");
                push_dec(&mut l, v as u64);
                l.append("n);");
                self.line(l.as_str());
            },
            OsOp::Pop => {
                let mut l = String::from_str(s);
                l.append(".pop();");
                self.line(l.as_str());
            },
            OsOp::Load { width, signed } => {
                let mut l1 = String::from_str("let __addr = ");
                l1.append(s);
                l1.append(".pop();");
                self.line(l1.as_str());
                let expr = self.memory_read_expr("__addr", width, signed);
                let mut l2 = String::from_str(s);
                l2.append(".push(");
                l2.append(expr.as_str());
                l2.append(");");
                self.line(l2.as_str());
            },
            OsOp::Store { width } => {
                let mut l1 = String::from_str("let __val = ");
                l1.append(s);
                l1.append(".pop(); let __addr = ");
                l1.append(s);
                l1.append(".pop();");
                self.line(l1.as_str());
                let stmt = self.memory_write_expr("__addr", "__val", width);
                self.line(stmt.as_str());
            },
            OsOp::Ecall { may_await } => {
                let mut l = String::from_str("let __ecall = ");
                l.append(s);
                if may_await {
                    l.append(".pop(); let __ret = await ");
                } else {
                    l.append(".pop(); let __ret = ");
                }
                l.append(self.helper_prefix);
                l.append(".ecall(__ecall); ");
                l.append(s);
                l.append(".push(__ret);");
                self.line(l.as_str());
            },
            OsOp::Jump { target } => {
                let mut l = String::from_str("throw new Error('jump to 0x' + (");
                push_dec(&mut l, target);
                l.append(").toString(16) + ' not resolved');");
                self.line(l.as_str());
            },
            OsOp::TailCall { helper } => {
                let mut l = String::from_str("return ");
                l.append(self.helper_prefix);
                l.append(".tailCall('");
                l.append(helper.as_str());
                l.append("', ");
                l.append(s);
                l.append(");");
                self.line(l.as_str());
            },
            OsOp::Trap => {
                self.line("throw new Error('os trap');");
            },
        }
        assert(self.out@ =~= b.out@ + js_text(b, op));
    }
}

/// Emit the default data access for a JS-style backend: a load of `width`
/// at the address on the value stack.
pub fn emit_js_data_access<B: Backend>(backend: &mut B, width: MemWidth, _spec: &MemorySpec)
    ensures
        B::spec_op(*old(backend), OsOp::Load { width, signed: false }, *final(backend)),
{
    backend.op(OsOp::Load { width, signed: false });
}

/// Emit the default load/store for a memory access: a store of its width
/// when it writes, else a load of its width and signedness.
pub fn emit_wax_memory_access<B: Backend>(backend: &mut B, op: &MemoryAccessOp)
    ensures
        B::spec_op(
            *old(backend),
            if op.write {
                OsOp::Store { width: op.width }
            } else {
                OsOp::Load { width: op.width, signed: op.signed }
            },
            *final(backend),
        ),
{
    if op.write {
        backend.op(OsOp::Store { width: op.width });
    } else {
        backend.op(OsOp::Load { width: op.width, signed: op.signed });
    }
}

/// The simplest memory code generator: one load or store per access, and
/// no page-table glue.
pub struct MinimalMemoryCodegen;

impl<B: Backend> MemoryCodegen<B> for MinimalMemoryCodegen {
    fn emit_memory_access(&mut self, backend: &mut B, op: &MemoryAccessOp)
        ensures
            B::spec_op(
                *old(backend),
                if op.write {
                    OsOp::Store { width: op.width }
                } else {
                    OsOp::Load { width: op.width, signed: op.signed }
                },
                *final(backend),
            ),
    {
        emit_wax_memory_access(backend, op);
    }

    fn emit_page_table_glue(&mut self, _backend: &mut B, _spec: &MemorySpec)
        ensures
            *final(_backend) == *old(_backend),
    {
    }
}

} // verus!
