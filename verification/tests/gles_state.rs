use touchhle::gles::fixed_state::{FixedArrayState, GLES2FixedState, MatrixStack};
use touchhle::gles::gl;
use touchhle::gles::gles2_native::{
    attrib_normalized, attrib_pointer_type, decode_indices, detect_pvrtc_support, detect_texture_lod_ext_support, driver_description,
    fixed_array_plan, is_es1_only_capability, is_es1_only_hint_target, tex_parameter_action, texture_mode_uniform,
    vertex_attrib_type, FixedArrayPlan, GLES2NativeContext, TexParameterAction,
};
use touchhle::gles::paletted::{decode_paletted_texture, entry_layout_supported, palette_entry_size, PalettedTextureFormat};

type Matrix = [f32; 16];

const IDENTITY: Matrix = [1.0, 0.0, 0.0, 0.0, 0.0, 1.0, 0.0, 0.0, 0.0, 0.0, 1.0, 0.0, 0.0, 0.0, 0.0, 1.0];

fn context() -> GLES2NativeContext<Matrix, ()> {
    GLES2NativeContext::new(IDENTITY, ())
}

#[test]
fn fixed_state_starts_like_an_es1_context() {
    let s: GLES2FixedState<Matrix, ()> = GLES2FixedState::new(IDENTITY, ());
    assert_eq!(s.active_texture, gl::TEXTURE0);
    assert_eq!(s.matrix_mode, gl::MODELVIEW);
    assert_eq!(s.texture_env_mode, [gl::MODULATE; 4]);
    assert_eq!(s.vertex.size, 4);
    assert_eq!(s.normal.size, 3);
    assert_eq!(s.texcoord[3].size, 2);
    assert_eq!(s.texcoord[0].type_, gl::FLOAT);
    assert_eq!(s.mvp_location, -1);
    assert_eq!(s.modelview.depth(), 1);
    assert_eq!(s.current_matrix(), IDENTITY);
}

#[test]
fn enabling_tracked_capabilities_is_read_back() {
    let mut ctx = context();
    let mut gles = ctx.native();
    assert!(!gles.Enable(gl::VERTEX_ARRAY));
    assert_eq!(gles.IsEnabled(gl::VERTEX_ARRAY), Some(true));
    assert!(gles.fixed_state.fixed_pipeline_active);
    assert!(!gles.Enable(gl::TEXTURE_2D));
    assert_eq!(gles.IsEnabled(gl::TEXTURE_2D), Some(true));
    assert_eq!(gles.IsEnabled(gl::COLOR_ARRAY), Some(false));
    assert!(!gles.Disable(gl::VERTEX_ARRAY));
    assert_eq!(gles.IsEnabled(gl::VERTEX_ARRAY), Some(false));
    assert_eq!(gles.IsEnabled(gl::TEXTURE_2D), Some(true));
    gles.ActiveTexture(gl::TEXTURE0 + 1);
    assert_eq!(gles.IsEnabled(gl::TEXTURE_2D), Some(false));
    gles.ActiveTexture(gl::TEXTURE0 + 7);
    assert_eq!(gles.IsEnabled(gl::TEXTURE_2D), Some(false));
    assert!(!gles.Enable(gl::TEXTURE_2D));
}

#[test]
fn es1_only_capabilities_never_reach_the_driver() {
    let mut ctx = context();
    let mut gles = ctx.native();
    assert!(!gles.Enable(gl::LIGHTING));
    assert!(!gles.Enable(gl::LIGHT0 + 3));
    assert!(!gles.Disable(gl::CLIP_PLANE5));
    assert_eq!(gles.IsEnabled(gl::FOG), Some(false));
    assert!(!gles.fixed_state.fixed_pipeline_active);
    assert!(gles.Enable(0x0BE2));
    assert_eq!(gles.IsEnabled(0x0BE2), None);
    assert!(is_es1_only_capability(gl::NORMALIZE));
    assert!(is_es1_only_capability(0x4007));
    assert!(!is_es1_only_capability(0x4008));
    assert!(!is_es1_only_capability(0x3006));
    assert!(is_es1_only_hint_target(gl::FOG_HINT));
    assert!(!is_es1_only_hint_target(0x8192));
    assert!(!gles.Hint(gl::PERSPECTIVE_CORRECTION_HINT));
    assert!(gles.Hint(0x8192));
}

#[test]
fn matrix_stacks_push_pop_and_follow_the_mode() {
    let mut ctx = context();
    let mut gles = ctx.native();
    let mut m = IDENTITY;
    m[12] = 5.0;
    *gles.current_matrix_mut() = m;
    gles.PushMatrix();
    let mut n = IDENTITY;
    n[13] = 7.0;
    *gles.current_matrix_mut() = n;
    assert_eq!(*gles.current_matrix_mut(), n);
    gles.PopMatrix();
    assert_eq!(*gles.current_matrix_mut(), m);
    gles.PopMatrix();
    assert_eq!(*gles.current_matrix_mut(), m);
    gles.MatrixMode(gl::PROJECTION);
    assert_eq!(*gles.current_matrix_mut(), IDENTITY);
    gles.MatrixMode(0x1234);
    assert_eq!(gles.fixed_state.matrix_mode, gl::PROJECTION);
    gles.MatrixMode(gl::TEXTURE);
    gles.ActiveTexture(gl::TEXTURE0 + 2);
    *gles.current_matrix_mut() = n;
    assert_eq!(gles.fixed_state.texture2.top(), n);
    assert_eq!(gles.fixed_state.texture0.top(), IDENTITY);
    assert_eq!(gles.fixed_state.modelview.top(), m);
}

#[test]
fn matrix_stack_bottom_and_depth() {
    let mut s = MatrixStack::new(1u32);
    s.push();
    s.set_top(2);
    s.push();
    assert_eq!(s.depth(), 3);
    assert_eq!(s.bottom(), 1);
    assert_eq!(s.top(), 2);
    s.pop();
    s.pop();
    s.pop();
    assert_eq!(s.depth(), 1);
    assert_eq!(s.top(), 1);
}

#[test]
fn client_arrays_remember_their_buffer_and_enable() {
    let mut ctx = context();
    let mut gles = ctx.native();
    gles.BindBuffer(gl::ARRAY_BUFFER, 9);
    gles.BindBuffer(gl::ELEMENT_ARRAY_BUFFER, 4);
    assert!(!gles.Enable(gl::COLOR_ARRAY));
    gles.ColorPointer(4, gl::UNSIGNED_BYTE, 0, 0x1000);
    assert_eq!(gles.fixed_state.color.buffer_binding, 9);
    assert!(gles.fixed_state.color.enabled);
    assert_eq!(gles.fixed_state.element_array_buffer, 4);
    gles.NormalPointer(gl::FLOAT, 12, 0x2000);
    assert_eq!(gles.fixed_state.normal.size, 3);
    gles.ClientActiveTexture(gl::TEXTURE0 + 1);
    gles.TexCoordPointer(2, gl::FIXED, 8, 0x3000);
    assert_eq!(gles.fixed_state.texcoord[1].pointer, 0x3000);
    assert_eq!(gles.GetPointerv(gl::TEXTURE_COORD_ARRAY_POINTER), 0x3000);
    assert_eq!(gles.GetPointerv(gl::COLOR_ARRAY_POINTER), 0x1000);
    gles.VertexPointer(3, gl::FLOAT, 0, 0x4000);
    assert_eq!(gles.GetPointerv(gl::VERTEX_ARRAY_POINTER), 0x4000);
    gles.BindTexture(gl::TEXTURE_2D, 33);
    assert_eq!(gles.fixed_state.bound_textures, [33, 0, 0, 0]);
    gles.TexEnvi(gl::REPLACE as i32);
    assert_eq!(gles.texture_env_mode(gl::TEXTURE_ENV_MODE), Some(gl::REPLACE));
    assert_eq!(gles.texture_env_mode(0), None);
    assert!(gles.uses_fixed_pipeline());
}

#[test]
fn context_checks_extensions_once() {
    let mut ctx = context();
    assert!(ctx.needs_load(true));
    assert!(ctx.needs_extension_check());
    ctx.finish_load(Some("GL_OES_rgb8_rgba8 GL_IMG_texture_compression_pvrtc"));
    assert!(!ctx.needs_load(true));
    assert!(ctx.needs_load(false));
    assert!(ctx.pvrtc_native);
    assert!(!ctx.texture_lod_ext_supported);
    ctx.finish_load(Some("GL_EXT_shader_texture_lod"));
    assert!(ctx.pvrtc_native);
    assert!(!ctx.texture_lod_ext_supported);
    assert_eq!(GLES2NativeContext::<Matrix, ()>::description(), "Native OpenGL ES 2.0");
}

#[test]
fn extension_strings_are_split_at_spaces() {
    assert!(detect_pvrtc_support(Some("GL_IMG_texture_compression_pvrtc")));
    assert!(detect_texture_lod_ext_support(Some("A  GL_EXT_shader_texture_lod B")));
    assert!(!detect_texture_lod_ext_support(Some("GL_EXT_shader_texture_lodX")));
    assert!(!detect_pvrtc_support(Some("")));
    assert!(!detect_pvrtc_support(None));
}

#[test]
fn shader_sources_are_patched_only_when_needed() {
    let mut ctx = context();
    ctx.finish_load(Some("GL_EXT_shader_texture_lod"));
    let gles = ctx.native();
    let plain = "void main() { gl_Position = vec4(1.0); }\n";
    assert_eq!(gles.ShaderSource(plain, false), None);
    let fragment = "void main() { gl_FragColor = vec4(1.0); }\n";
    let patched = gles.ShaderSource(fragment, true).unwrap();
    assert!(patched.starts_with("precision mediump float;\n"));
    let with_precision = "precision highp float;\nvoid main() {}\n";
    assert_eq!(gles.ShaderSource(with_precision, true), None);
    let ext = "void f() {}\n#extension GL_OES_standard_derivatives : enable\n";
    assert_eq!(
        gles.ShaderSource(ext, false),
        Some("#extension GL_OES_standard_derivatives : enable\nvoid f() {}\n".to_string())
    );
    let nul = "#extension A : enable\nvoid f() {}\0\n";
    assert_eq!(gles.ShaderSource(nul, false), None);
}

#[test]
fn lod_calls_are_rewritten_without_the_extension() {
    let mut ctx = context();
    ctx.finish_load(Some("GL_IMG_texture_compression_pvrtc"));
    let gles = ctx.native();
    let src = "void main() { gl_Position = texture2DLodEXT(s, c, 1.0); }\n";
    assert_eq!(
        gles.ShaderSource(src, false),
        Some("void main() { gl_Position = texture2D(s, c); }\n".to_string())
    );
}

#[test]
fn driver_calls_are_adapted() {
    assert_eq!(tex_parameter_action(gl::GENERATE_MIPMAP, true), TexParameterAction::GenerateMipmap);
    assert_eq!(tex_parameter_action(gl::GENERATE_MIPMAP, false), TexParameterAction::Ignore);
    assert_eq!(tex_parameter_action(0x2801, true), TexParameterAction::Forward);
    assert_eq!(vertex_attrib_type(0x8D61), 0x140B);
    assert_eq!(vertex_attrib_type(gl::FLOAT), gl::FLOAT);
    assert_eq!(texture_mode_uniform(gl::REPLACE), 2);
    assert_eq!(texture_mode_uniform(gl::ADD), 3);
    assert_eq!(texture_mode_uniform(gl::DECAL), 4);
    assert_eq!(texture_mode_uniform(gl::MODULATE), 1);
    assert_eq!(attrib_pointer_type(gl::FIXED), gl::FLOAT);
    assert_eq!(attrib_pointer_type(gl::UNSIGNED_BYTE), gl::UNSIGNED_BYTE);
    assert!(attrib_normalized(1, gl::UNSIGNED_BYTE));
    assert!(!attrib_normalized(1, gl::FLOAT));
    assert!(!attrib_normalized(0, gl::UNSIGNED_BYTE));
    assert_eq!(driver_description("2.0", "Vendor", "GPU"), "2.0 / Vendor / GPU");
}

#[test]
fn fixed_point_arrays_are_planned_for_conversion() {
    let mut array = FixedArrayState::with_size(3);
    assert_eq!(fixed_array_plan(&array, 0, 4), FixedArrayPlan::Absent);
    array.pointer = 0x1000;
    assert_eq!(fixed_array_plan(&array, 0, 0), FixedArrayPlan::Absent);
    assert_eq!(fixed_array_plan(&array, 0, 4), FixedArrayPlan::Direct);
    array.type_ = gl::FIXED;
    assert_eq!(
        fixed_array_plan(&array, 2, 4),
        FixedArrayPlan::Convert { components: 3, stride: 12, vertices: 6, converted_len: 18 }
    );
    array.size = 9;
    array.stride = 20;
    assert_eq!(
        fixed_array_plan(&array, -3, 1),
        FixedArrayPlan::Convert { components: 4, stride: 20, vertices: 1, converted_len: 4 }
    );
    array.buffer_binding = 2;
    assert_eq!(fixed_array_plan(&array, 0, 2), FixedArrayPlan::InBuffer { converted_len: 8 });
}

#[test]
fn element_indices_are_widened() {
    assert_eq!(decode_indices(&[1, 2, 3], gl::UNSIGNED_BYTE, 3), Some(vec![1, 2, 3]));
    assert_eq!(decode_indices(&[1, 0, 0x34, 0x12], gl::UNSIGNED_SHORT, 2), Some(vec![1, 0x1234]));
    assert_eq!(decode_indices(&[1, 2], gl::UNSIGNED_BYTE, 0), None);
    assert_eq!(decode_indices(&[1, 2, 3, 4], 0x1405, 1), None);
}

#[test]
fn paletted_textures_decode_through_their_palette() {
    let format = PalettedTextureFormat { index_is_nibble: true, palette_entry_format: gl::RGB, palette_entry_type: gl::UNSIGNED_BYTE };
    assert_eq!(palette_entry_size(gl::RGB, gl::UNSIGNED_BYTE), 3);
    assert_eq!(palette_entry_size(gl::RGBA, gl::UNSIGNED_SHORT_4_4_4_4), 2);
    let mut payload = vec![0u8; 16 * 3];
    payload[3..6].copy_from_slice(&[10, 11, 12]);
    payload[15 * 3..16 * 3].copy_from_slice(&[200, 201, 202]);
    // Texels: 1, 15, 0 (high nibble first).
    payload.extend_from_slice(&[0x1f, 0x00]);
    let decoded = decode_paletted_texture(&payload, format, 3, 1).unwrap();
    assert_eq!(decoded, vec![10, 11, 12, 200, 201, 202, 0, 0, 0]);
    assert_eq!(decode_paletted_texture(&payload[..49], format, 3, 1), None);
    let bytes = PalettedTextureFormat { index_is_nibble: false, palette_entry_format: gl::RGBA, palette_entry_type: gl::UNSIGNED_BYTE };
    let mut payload = vec![0u8; 256 * 4];
    payload[255 * 4..].copy_from_slice(&[1, 2, 3, 4]);
    payload.extend_from_slice(&[255, 0, 255]);
    assert_eq!(decode_paletted_texture(&payload, bytes, 3, 1), None);
    payload.push(9);
    assert_eq!(decode_paletted_texture(&payload, bytes, 3, 1), Some(vec![1, 2, 3, 4, 0, 0, 0, 0, 1, 2, 3, 4]));
}

#[test]
fn compressed_textures_are_decoded_without_native_pvrtc() {
    let mut ctx = context();
    ctx.finish_load(None);
    let gles = ctx.native();
    assert!(gles.decodes_compressed_textures(true, 16));
    assert!(!gles.decodes_compressed_textures(false, 16));
    assert!(!gles.decodes_compressed_textures(true, 0));
    assert_eq!(gles.decode_paletted(None, &[1, 2, 3], 1, 1), None);
    let format = PalettedTextureFormat { index_is_nibble: true, palette_entry_format: gl::RGB, palette_entry_type: gl::UNSIGNED_SHORT_5_6_5 };
    assert_eq!(gles.decode_paletted(Some(format), &[0u8; 4], 1, 1), Some(None));
}

#[test]
fn paletted_entry_layouts_are_recognised() {
    let f = |palette_entry_format, palette_entry_type| PalettedTextureFormat { index_is_nibble: false, palette_entry_format, palette_entry_type };
    assert!(entry_layout_supported(&f(gl::RGB, gl::UNSIGNED_BYTE)));
    assert!(entry_layout_supported(&f(gl::RGBA, gl::UNSIGNED_SHORT_5_5_5_1)));
    assert!(!entry_layout_supported(&f(0x1909, gl::UNSIGNED_BYTE)));
    assert!(!entry_layout_supported(&f(gl::RGB, gl::FLOAT)));
}

#[test]
fn client_states_enable_tracked_arrays_only() {
    let mut ctx = context();
    let mut gles = ctx.native();
    gles.EnableClientState(gl::NORMAL_ARRAY);
    assert!(gles.fixed_state.normal.enabled);
    assert!(gles.fixed_state.fixed_pipeline_active);
    gles.DisableClientState(gl::NORMAL_ARRAY);
    assert!(!gles.fixed_state.normal.enabled);
    let mut other = context();
    let mut fresh = other.native();
    fresh.EnableClientState(0x1234);
    assert!(!fresh.fixed_state.fixed_pipeline_active);
}
