# lib

Verified core of an OS-emulation toolchain: the daemon wire protocol,
ELF and Mach-O load-command rewriting, guest page tables and memory,
C shim / interposer source generation, the shim handler registry,
syscall tables, JS memory-access codegen, and the pure parts of
`codesign` handling (report parsing, entitlement plists, argument lists).

Layout:

- `src/` — the library, written in Verus; every public function carries a
  contract, and the cross-function laws (protocol round trips, memory
  read-after-write, rewrite length preservation, which override a symbol
  resolves to and whose core body is emitted,
  sorted symbol lists) are stated as public proof functions or `ensures`.
- `tests/` — ordinary Rust tests against the compiled library.
- `app/` — the unverified edges: Unix-socket serving, running `codesign`,
  reading and writing files, build-time paths.
