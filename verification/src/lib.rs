pub mod mem64;
pub mod mem64_laws;
pub mod text;
pub mod gles;
pub mod a64_runtime;
pub mod environment64;
pub mod mach_o64;
pub mod mach_scan;
pub mod runtime_laws;
pub mod mach_o64_laws;
