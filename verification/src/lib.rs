pub mod bytes;
pub mod protocol;
pub mod rewrite_elf;
pub mod rewrite_elf_laws;
pub mod rewrite_macho;
pub mod page;
pub mod text;
pub mod abi;
pub mod c_emit;
pub mod forward;
pub mod registry;
pub mod daemon_shim;
pub mod daemon_hook;
pub mod codegen;
pub mod syscall;
pub mod linux_wasi;
pub mod transform;
pub mod daemon;
pub mod codesign;
pub mod target_core;
pub mod build_glue;
pub mod page_codegen;
pub mod shim_core;
pub mod interposer;
