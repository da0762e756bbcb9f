//! The OpenGL ES enumerants the backend's decisions look at.

use vstd::prelude::*;

verus! {

pub const TEXTURE0: u32 = 0x84C0;
pub const TEXTURE_2D: u32 = 0x0DE1;
pub const VERTEX_ARRAY: u32 = 0x8074;
pub const NORMAL_ARRAY: u32 = 0x8075;
pub const COLOR_ARRAY: u32 = 0x8076;
pub const TEXTURE_COORD_ARRAY: u32 = 0x8078;
pub const LIGHTING: u32 = 0x0B50;
pub const FOG: u32 = 0x0B60;
pub const ALPHA_TEST: u32 = 0x0BC0;
pub const COLOR_MATERIAL: u32 = 0x0B57;
pub const RESCALE_NORMAL: u32 = 0x803A;
pub const NORMALIZE: u32 = 0x0BA1;
pub const POINT_SMOOTH: u32 = 0x0B10;
pub const LINE_SMOOTH: u32 = 0x0B20;
pub const LIGHT0: u32 = 0x4000;
pub const LIGHT7: u32 = 0x4007;
pub const CLIP_PLANE0: u32 = 0x3000;
pub const CLIP_PLANE5: u32 = 0x3005;
pub const PERSPECTIVE_CORRECTION_HINT: u32 = 0x0C50;
pub const POINT_SMOOTH_HINT: u32 = 0x0C51;
pub const LINE_SMOOTH_HINT: u32 = 0x0C52;
pub const FOG_HINT: u32 = 0x0C54;
pub const GENERATE_MIPMAP: u32 = 0x8191;
pub const MODELVIEW: u32 = 0x1700;
pub const PROJECTION: u32 = 0x1701;
pub const TEXTURE: u32 = 0x1702;
pub const MODULATE: u32 = 0x2100;
pub const DECAL: u32 = 0x2101;
pub const REPLACE: u32 = 0x1E01;
pub const ADD: u32 = 0x0104;
pub const TEXTURE_ENV_MODE: u32 = 0x2200;
pub const BYTE: u32 = 0x1400;
pub const UNSIGNED_BYTE: u32 = 0x1401;
pub const UNSIGNED_SHORT: u32 = 0x1403;
pub const FLOAT: u32 = 0x1406;
pub const FIXED: u32 = 0x140C;
pub const HALF_FLOAT: u32 = 0x140B;
pub const HALF_FLOAT_OES: u32 = 0x8D61;
pub const RGB: u32 = 0x1907;
pub const RGBA: u32 = 0x1908;
pub const UNSIGNED_SHORT_4_4_4_4: u32 = 0x8033;
pub const UNSIGNED_SHORT_5_5_5_1: u32 = 0x8034;
pub const UNSIGNED_SHORT_5_6_5: u32 = 0x8363;
pub const ARRAY_BUFFER: u32 = 0x8892;
pub const ELEMENT_ARRAY_BUFFER: u32 = 0x8893;
pub const VERTEX_ARRAY_POINTER: u32 = 0x808E;
pub const NORMAL_ARRAY_POINTER: u32 = 0x808F;
pub const COLOR_ARRAY_POINTER: u32 = 0x8090;
pub const TEXTURE_COORD_ARRAY_POINTER: u32 = 0x8092;
pub const FRAGMENT_SHADER: u32 = 0x8B30;
pub const VERTEX_SHADER: u32 = 0x8B31;

} // verus!
