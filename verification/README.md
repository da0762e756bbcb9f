# touchhle

The verified core of a 64-bit ARM guest runtime and of an OpenGL ES 2.0
backend, written in Verus.

- `src/mem64.rs`: guest memory (mapped regions, a bump allocator, typed
  little-endian reads and writes), with its laws in `src/mem64_laws.rs`.
- `src/a64_runtime.rs`: the host functions the runtime answers itself
  (allocation, string and memory functions, Objective-C stand-ins).
- `src/environment64.rs`: the initial stack, host-call stubs and the
  run loop's decisions.
- `src/mach_o64.rs`: loading a Mach-O executable; parsing is done by the
  `mach_object` crate through the trusted functions at the top of the
  file's exec part. Laws in `src/mach_o64_laws.rs`. `src/mach_scan.rs`
  checks the bytes and the dyld opcode streams before they go to
  `mach_object`, whose arithmetic overflows on some malformed input.
- `src/gles/`: shader-source rewriting, the OpenGL ES 1.1 fixed-function
  state kept for ES 1.1 guests, paletted texture decoding, and the
  backend's per-call decisions; laws in `src/gles/shader_laws.rs`.
- `src/runtime_laws.rs`: laws across the runtime's calls.
- `app/`: the host side: float matrix arithmetic, the driver calls, the
  CPU run loop and file reading.
- `tests/`: tests of the library, run with the real `mach_object` crate.
