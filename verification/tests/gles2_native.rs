use touchhle::gles::gles2_native::{
    patch_shader_for_native_es2, replace_texture_lod_ext_calls, shader_has_default_float_precision,
};

#[test]
fn injects_default_float_precision_when_missing() {
    let src = "#version 100\nvoid main() { gl_FragColor = vec4(1.0); }\n";
    assert!(!shader_has_default_float_precision(src));
    let out = patch_shader_for_native_es2(src, true, true);
    assert!(out.contains("precision mediump float;"));
    assert!(out.contains("void main()"));
}

#[test]
fn keeps_existing_float_precision() {
    let src =
        "#version 100\nprecision highp float;\nvoid main() { gl_FragColor = vec4(1.0); }\n";
    assert!(shader_has_default_float_precision(src));
    let out = patch_shader_for_native_es2(src, true, true);
    assert!(out.contains("precision highp float;"));
    assert_eq!(out.matches("precision").count(), 1);
}

#[test]
fn does_not_inject_when_not_requested() {
    let src = "#version 100\nvoid main() { gl_Position = vec4(1.0); }\n";
    let out = patch_shader_for_native_es2(src, true, false);
    assert!(!out.contains("precision"));
}

#[test]
fn hoists_extension_directives_before_body_code() {
    let src = "#version 100\nvoid helper() {}\n#extension GL_OES_texture_3D : enable\nvoid main() { gl_FragColor = vec4(1.0); }\n";
    let out = patch_shader_for_native_es2(src, true, false);
    let ext_pos = out.find("#extension GL_OES_texture_3D : enable").unwrap();
    let helper_pos = out.find("void helper()").unwrap();
    assert!(ext_pos < helper_pos);
    assert!(out.starts_with("#version 100\n#extension GL_OES_texture_3D : enable\n"));
}

#[test]
fn lod_calls_lose_their_last_argument() {
    let out = replace_texture_lod_ext_calls("c = texture2DLodEXT(s, uv, 2.0);");
    assert_eq!(out, "c = texture2D(s, uv);");
    let out = replace_texture_lod_ext_calls("a = textureCubeLodEXT( t , d , 1.0 ) + texture2DProjLodEXT(s, p, 0.0);");
    assert_eq!(out, "a = textureCube(t , d) + texture2DProj(s, p);");
}

#[test]
fn lod_rewriting_keeps_nested_calls_and_skips_longer_identifiers() {
    let out = replace_texture_lod_ext_calls("x = texture2DLodEXT(s, f(a, b), 3.0);");
    assert_eq!(out, "x = texture2D(s, f(a, b));");
    let out = replace_texture_lod_ext_calls("my_texture2DLodEXT(a, b) + texture2DLodEXT(s, c, l)");
    assert_eq!(out, "my_texture2DLodEXT(a, b) + texture2D(s, c)");
    let out = replace_texture_lod_ext_calls("my_texture2DLodEXT(a, b, c); texture2DLodEXT(s, uv, 1.0);");
    assert_eq!(out, "my_texture2DLodEXT(a, b, c); texture2D(s, uv);");
    let out = replace_texture_lod_ext_calls("texture2DGradEXT(s, c, dx, dy)");
    assert_eq!(out, "texture2D(s, c, dx)");
    let out = replace_texture_lod_ext_calls("texture2DLodEXT(s)");
    assert_eq!(out, "texture2D(s)");
    let out = replace_texture_lod_ext_calls("texture2DLodEXT(s, c");
    assert_eq!(out, "texture2DLodEXT(s, c");
}

#[test]
fn missing_lod_extension_strips_its_directive_and_calls() {
    let src = "#version 100\n#extension GL_EXT_shader_texture_lod : enable\nvoid main() { gl_FragColor = texture2DLodEXT(s, uv, 1.0); }\n";
    let out = patch_shader_for_native_es2(src, false, false);
    assert_eq!(out, "#version 100\nvoid main() { gl_FragColor = texture2D(s, uv); }\n");
    let kept = patch_shader_for_native_es2(src, true, false);
    assert_eq!(kept, src);
}

#[test]
fn precision_detection_follows_words_not_spacing() {
    assert!(shader_has_default_float_precision("  precision   lowp   float ;"));
    assert!(shader_has_default_float_precision("precision mediump float2"));
    assert!(!shader_has_default_float_precision("precision mediump int;"));
    assert!(!shader_has_default_float_precision("precision float;"));
    assert!(!shader_has_default_float_precision("uniform float precision;"));
    assert!(shader_has_default_float_precision("void main() {}\r\nprecision highp float;\r\n"));
}

#[test]
fn second_version_line_stays_in_the_body() {
    let src = "#extension A : enable\n#version 100\nx\n#version 300\n";
    let out = patch_shader_for_native_es2(src, true, true);
    assert_eq!(out, "#version 100\n#extension A : enable\nprecision mediump float;\nx\n#version 300\n");
}

#[test]
fn only_top_level_precision_counts() {
    assert!(!shader_has_default_float_precision("void main() {\nprecision highp float;\n}\n"));
    assert!(shader_has_default_float_precision("void f() {}\nprecision lowp float;\nvoid main() {}\n"));
    let out = patch_shader_for_native_es2("void main() {\nprecision highp float;\n}\n", true, true);
    assert!(out.starts_with("precision mediump float;\n"));
}

#[test]
fn repeated_declarations_in_a_block_are_dropped() {
    let src = "void main() {\nfloat a = 1.0;\nfloat a = 1.0;\n}\n";
    let out = patch_shader_for_native_es2(src, true, false);
    assert_eq!(out.matches("float a = 1.0;").count(), 1);
    assert_eq!(out, "void main() {\nfloat a = 1.0;\n}\n");
    let siblings = "void main() {\nif (x) {\n  highp vec2 t = uv;\n}\nelse {\n  highp vec2 t = uv;\n}\n}\n";
    assert_eq!(patch_shader_for_native_es2(siblings, true, false), siblings);
    let top = "uniform float a;\nfloat b;\nfloat b;\n";
    assert_eq!(patch_shader_for_native_es2(top, true, false), top);
}
