//! OpenGL ES support: the decisions, state and text rewriting that the
//! native OpenGL ES 2.0 backend keeps around the driver.

pub mod gl;
pub mod fixed_state;
pub mod paletted;
pub mod gles2_native;
pub mod shader_laws;
