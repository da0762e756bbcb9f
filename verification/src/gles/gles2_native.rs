//! Passthrough for a native OpenGL ES 2.0 driver: the shader-source
//! rewriting it applies, and the fixed-function state it tracks to emulate
//! OpenGL ES 1.1 on top of OpenGL ES 2.0.

use vstd::prelude::*;
use crate::gles::fixed_state::{selected_stack, selection_valid, unit_index, unit_of, FixedArrayState, GLES2FixedState, TEXTURE_UNITS};
use crate::gles::gl::{
    ADD, ALPHA_TEST, ARRAY_BUFFER, CLIP_PLANE0, CLIP_PLANE5, COLOR_ARRAY, COLOR_ARRAY_POINTER, COLOR_MATERIAL, DECAL,
    ELEMENT_ARRAY_BUFFER, FIXED, FLOAT, FOG, FOG_HINT, GENERATE_MIPMAP, HALF_FLOAT, HALF_FLOAT_OES, LIGHT0, LIGHT7,
    LIGHTING, LINE_SMOOTH, LINE_SMOOTH_HINT, MODELVIEW, NORMALIZE, NORMAL_ARRAY, NORMAL_ARRAY_POINTER,
    PERSPECTIVE_CORRECTION_HINT, POINT_SMOOTH, POINT_SMOOTH_HINT, PROJECTION, REPLACE, RESCALE_NORMAL, TEXTURE,
    TEXTURE_2D, TEXTURE_COORD_ARRAY, TEXTURE_ENV_MODE, UNSIGNED_BYTE, UNSIGNED_SHORT, VERTEX_ARRAY,
    VERTEX_ARRAY_POINTER,
};
use crate::gles::paletted::{decode_paletted_texture, entry_size_spec, PalettedTextureFormat};
use crate::text::{
    contains, contains_exec, copy_range, find_char_from, find_char_from_exec, find_from,
    find_from_exec, first_token, first_token_exec, lemma_find_char_from, lines, matches_at,
    split_lines, starts_with, starts_with_exec, str_chars, string_from_chars, trim, trim_chars, chars_eq,
};

verus! {

/// Whether `q` is one of the GLSL ES precision qualifiers.
pub open spec fn is_precision_qualifier(q: Seq<char>) -> bool {
    q == "lowp"@ || q == "mediump"@ || q == "highp"@
}

/// Whether a line declares a default float precision: after trimming it
/// starts with `precision`, the next word is a precision qualifier and the
/// word after that starts with `float`.
pub open spec fn is_default_float_precision_line(line: Seq<char>) -> bool {
    let t = trim(line);
    &&& starts_with(t, "precision"@)
    &&& match first_token(t.subrange("precision"@.len() as int, t.len() as int)) {
        Some((q, rest)) => is_precision_qualifier(q) && match first_token(rest) {
            Some((ty, _)) => starts_with(ty, "float"@),
            None => false,
        },
        None => false,
    }
}

/// The brace depth after the characters `s`, from depth `d`: `{` opens a
/// block and `}` closes one (a `}` at the top level changes nothing).
pub open spec fn depth_after(d: nat, s: Seq<char>) -> nat
    decreases s.len(),
{
    if s.len() == 0 {
        d
    } else {
        let e = depth_after(d, s.drop_last());
        if s.last() == '{' {
            e + 1
        } else if s.last() == '}' {
            if e == 0 {
                0
            } else {
                (e - 1) as nat
            }
        } else {
            e
        }
    }
}

/// The brace depth at the start of line `i` of `ls`.
pub open spec fn line_depth(ls: Seq<Seq<char>>, i: int) -> nat
    decreases i,
{
    if i <= 0 || i > ls.len() {
        0
    } else {
        depth_after(line_depth(ls, i - 1), ls[i - 1])
    }
}

/// Whether some top-level line of `source` (one that starts outside every
/// brace block) declares a default float precision.
pub open spec fn has_default_float_precision(source: Seq<char>) -> bool {
    exists|i: int|
        0 <= i < lines(source).len() && line_depth(lines(source), i) == 0 && #[trigger] is_default_float_precision_line(
            lines(source)[i],
        )
}

/// The number of characters in the lines `ls[..i]`.
pub open spec fn chars_before(ls: Seq<Seq<char>>, i: int) -> nat
    decreases i,
{
    if i <= 0 || i > ls.len() {
        0
    } else {
        chars_before(ls, i - 1) + ls[i - 1].len()
    }
}

proof fn lemma_depth_after_bound(d: nat, s: Seq<char>)
    ensures
        depth_after(d, s) <= d + s.len(),
    decreases s.len(),
{
    if s.len() > 0 {
        lemma_depth_after_bound(d, s.drop_last());
    }
}

proof fn lemma_line_depth_bound(ls: Seq<Seq<char>>, i: int)
    requires
        0 <= i <= ls.len(),
    ensures
        line_depth(ls, i) <= chars_before(ls, i),
    decreases i,
{
    if i > 0 {
        lemma_line_depth_bound(ls, i - 1);
        lemma_depth_after_bound(line_depth(ls, i - 1), ls[i - 1]);
    }
}

proof fn lemma_chars_before_mono(ls: Seq<Seq<char>>, i: int, j: int)
    requires
        0 <= i <= j <= ls.len(),
    ensures
        chars_before(ls, i) <= chars_before(ls, j),
    decreases j - i,
{
    if i < j {
        lemma_chars_before_mono(ls, i, j - 1);
    }
}

proof fn lemma_chars_before_cons(a: Seq<char>, rest: Seq<Seq<char>>, k: int)
    requires
        0 <= k <= rest.len(),
    ensures
        chars_before(seq![a] + rest, k + 1) == a.len() + chars_before(rest, k),
    decreases k,
{
    let ls = seq![a] + rest;
    assert(ls.len() == rest.len() + 1);
    if k > 0 {
        lemma_chars_before_cons(a, rest, k - 1);
        assert(ls[k] == rest[k - 1]);
        assert(chars_before(ls, k + 1) == chars_before(ls, k) + ls[k].len());
        assert(chars_before(rest, k) == chars_before(rest, k - 1) + rest[k - 1].len());
    } else {
        assert(ls[0] == a);
        assert(chars_before(ls, 1) == chars_before(ls, 0) + ls[0].len());
        assert(chars_before(ls, 0) == 0);
        assert(chars_before(rest, 0) == 0);
    }
}

/// The lines of `s` hold no more characters than `s`.
proof fn lemma_lines_chars(s: Seq<char>)
    ensures
        chars_before(lines(s), lines(s).len() as int) <= s.len(),
    decreases s.len(),
{
    crate::text::lemma_find_char_from(s, '\n', 0);
    match find_char_from(s, '\n', 0) {
        None => {
            if s.len() > 0 {
                assert(chars_before(seq![s], 1) == chars_before(seq![s], 0) + s.len());
            }
        },
        Some(i) => {
            let rest = s.subrange(i + 1, s.len() as int);
            lemma_lines_chars(rest);
            let a = crate::text::strip_cr(s.subrange(0, i));
            lemma_chars_before_cons(a, lines(rest), lines(rest).len() as int);
        },
    }
}


/// The lines of a shader sorted for rewriting: the first `#version` line,
/// the `#extension` lines that are kept, and every other line.
pub type ShaderLines = (Option<Seq<char>>, Seq<Seq<char>>, Seq<Seq<char>>);

/// Whether an `#extension` line is dropped: it names
/// `GL_EXT_shader_texture_lod` and the driver lacks that extension.
pub open spec fn drops_extension_line(trimmed: Seq<char>, texture_lod_ext_supported: bool) -> bool {
    !texture_lod_ext_supported && contains(trimmed, "GL_EXT_shader_texture_lod"@)
}

/// Sorts one more line into `parts`.
pub open spec fn classify_step(parts: ShaderLines, line: Seq<char>, texture_lod_ext_supported: bool) -> ShaderLines {
    let t = trim(line);
    if starts_with(t, "#version"@) && parts.0 is None {
        (Some(line), parts.1, parts.2)
    } else if starts_with(t, "#extension"@) {
        if drops_extension_line(t, texture_lod_ext_supported) {
            parts
        } else {
            (parts.0, parts.1.push(line), parts.2)
        }
    } else {
        (parts.0, parts.1, parts.2.push(line))
    }
}

/// Sorts `ls` in order.
pub open spec fn classify_lines(ls: Seq<Seq<char>>, texture_lod_ext_supported: bool) -> ShaderLines
    decreases ls.len(),
{
    if ls.len() == 0 {
        (None, Seq::empty(), Seq::empty())
    } else {
        classify_step(classify_lines(ls.drop_last(), texture_lod_ext_supported), ls.last(), texture_lod_ext_supported)
    }
}

/// The GLSL ES types a variable can be declared with.
pub open spec fn is_glsl_type(t: Seq<char>) -> bool {
    ||| t == "float"@ || t == "int"@ || t == "bool"@
    ||| t == "vec2"@ || t == "vec3"@ || t == "vec4"@
    ||| t == "ivec2"@ || t == "ivec3"@ || t == "ivec4"@
    ||| t == "bvec2"@ || t == "bvec3"@ || t == "bvec4"@
    ||| t == "mat2"@ || t == "mat3"@ || t == "mat4"@
    ||| t == "sampler2D"@ || t == "samplerCube"@
}

/// The qualifiers that may stand before a local variable's type.
pub open spec fn is_local_qualifier(t: Seq<char>) -> bool {
    t == "const"@ || is_precision_qualifier(t)
}

/// Whether a trimmed line declares variables: it ends with `;`, holds no
/// brace, and its first word is a type, or a qualifier followed by a type,
/// or two qualifiers followed by a type.
pub open spec fn is_declaration(t: Seq<char>) -> bool {
    &&& t.len() > 0 && t.last() == ';'
    &&& !t.contains('{') && !t.contains('}')
    &&& match first_token(t) {
        None => false,
        Some((a, r1)) => is_glsl_type(a) || (is_local_qualifier(a) && match first_token(r1) {
            None => false,
            Some((b, r2)) => is_glsl_type(b) || (is_local_qualifier(b) && match first_token(r2) {
                None => false,
                Some((c, _)) => is_glsl_type(c),
            }),
        }),
    }
}

/// The open blocks after the characters `s`, each with the declarations
/// seen in it: `{` opens a block and `}` closes one (the top level is never
/// closed).
pub open spec fn blocks_after(blocks: Seq<Seq<Seq<char>>>, s: Seq<char>) -> Seq<Seq<Seq<char>>>
    decreases s.len(),
{
    if s.len() == 0 {
        blocks
    } else {
        let b = blocks_after(blocks, s.drop_last());
        if s.last() == '{' {
            b.push(Seq::empty())
        } else if s.last() == '}' && b.len() > 1 {
            b.drop_last()
        } else {
            b
        }
    }
}

/// One more line through the de-duplication: inside a function, a
/// declaration that is, once trimmed, the same as one already made in the
/// same block is dropped; every other line is kept.
pub open spec fn dedupe_step(state: (Seq<Seq<char>>, Seq<Seq<Seq<char>>>), line: Seq<char>) -> (Seq<Seq<char>>, Seq<Seq<Seq<char>>>) {
    let (kept, blocks) = state;
    let t = trim(line);
    if is_declaration(t) && blocks.len() > 1 {
        if blocks.last().contains(t) {
            (kept, blocks)
        } else {
            (kept.push(line), blocks.update(blocks.len() - 1, blocks.last().push(t)))
        }
    } else {
        (kept.push(line), blocks_after(blocks, line))
    }
}

/// The lines `ls` de-duplicated in order, with the blocks open after them;
/// at the start only the top level is open.
pub open spec fn dedupe_lines(ls: Seq<Seq<char>>) -> (Seq<Seq<char>>, Seq<Seq<Seq<char>>>)
    decreases ls.len(),
{
    if ls.len() == 0 {
        (Seq::empty(), seq![Seq::empty()])
    } else {
        dedupe_step(dedupe_lines(ls.drop_last()), ls.last())
    }
}

/// The lines, each followed by `\n`.
pub open spec fn join_lines(ls: Seq<Seq<char>>) -> Seq<char>
    decreases ls.len(),
{
    if ls.len() == 0 {
        Seq::empty()
    } else {
        join_lines(ls.drop_last()) + ls.last() + seq!['\n']
    }
}

/// The rewritten shader before the `texture*LodEXT` calls are replaced: the
/// `#version` line, then the kept `#extension` lines, then (when
/// `inject_precision`) `precision mediump float;`, then every other line.
pub open spec fn assemble_shader(parts: ShaderLines, inject_precision: bool) -> Seq<char> {
    (match parts.0 {
        Some(v) => v + seq!['\n'],
        None => Seq::empty(),
    }) + join_lines(parts.1) + (if inject_precision {
        "precision mediump float;\n"@
    } else {
        Seq::empty()
    }) + join_lines(parts.2)
}

/// Letters, digits and `_`: the characters an identifier is made of.
pub open spec fn is_ident_char(c: char) -> bool {
    let x = c as u32;
    (0x30 <= x <= 0x39) || (0x41 <= x <= 0x5a) || (0x61 <= x <= 0x7a) || x == 0x5f
}

/// From `i` on, with `depth` parentheses open, finds the `)` that closes
/// the outermost one and the last `,` seen at depth 1 (starting from
/// `comma`).
pub open spec fn scan_close(s: Seq<char>, i: int, depth: int, comma: Option<int>) -> (Option<int>, Option<int>)
    decreases s.len() - i,
{
    if i < 0 || i >= s.len() {
        (None, comma)
    } else if s[i] == '(' {
        scan_close(s, i + 1, depth + 1, comma)
    } else if s[i] == ')' {
        if depth - 1 == 0 {
            (Some(i), comma)
        } else {
            scan_close(s, i + 1, depth - 1, comma)
        }
    } else if s[i] == ',' && depth == 1 {
        scan_close(s, i + 1, depth, Some(i))
    } else {
        scan_close(s, i + 1, depth, comma)
    }
}

/// The call at `start..end` with arguments in `paren..=close` renamed to
/// `new` and its last argument (after the last top-level comma) dropped; with
/// no such comma, only the name changes.
pub open spec fn rewrite_call(
    s: Seq<char>,
    start: int,
    end: int,
    new: Seq<char>,
    paren: int,
    close: int,
    comma: Option<int>,
) -> Seq<char> {
    match comma {
        Some(c) => s.subrange(0, start) + new + seq!['('] + trim(s.subrange(paren + 1, c)) + seq![')']
            + s.subrange(close + 1, s.len() as int),
        None => s.subrange(0, start) + new + s.subrange(end, s.len() as int),
    }
}

/// Rewrites the occurrences of the function name `old` from `from` on to
/// `new`, dropping each call's last argument: an occurrence inside a longer
/// identifier is skipped and the search goes on after it; an occurrence
/// that is a whole identifier is rewritten when a parenthesised argument
/// list that closes follows it (somewhere), and the search starts over;
/// otherwise the rewriting ends. The rewriting only shortens, which is why
/// it ends.
pub open spec fn replace_name_from(s: Seq<char>, old: Seq<char>, new: Seq<char>, from: int) -> Seq<char>
    decreases s.len(), s.len() - from,
{
    if new.len() >= old.len() || from < 0 {
        s
    } else {
        match find_from(s, old, from) {
            None => s,
            Some(start) => {
                let end = start + old.len();
                if !(start == 0 || !is_ident_char(s[start - 1])) || !(end >= s.len() || !is_ident_char(s[end])) {
                    proof {
                        lemma_find_from(s, old, from);
                    }
                    replace_name_from(s, old, new, start + 1)
                } else {
                    match find_char_from(s, '(', end) {
                        None => s,
                        Some(paren) => match scan_close(s, paren, 0, None) {
                            (None, _) => s,
                            (Some(close), comma) => {
                                proof {
                                    lemma_find_from(s, old, from);
                                    lemma_find_char_from(s, '(', end);
                                    lemma_scan_close(s, paren + 1, 1, None);
                                    lemma_rewrite_shorter(s, start, end, new, paren, close, comma);
                                }
                                replace_name_from(rewrite_call(s, start, end, new, paren, close, comma), old, new, 0)
                            },
                        },
                    }
                }
            },
        }
    }
}

/// Every standalone call of `old` rewritten to `new` less its last argument
/// (see [`replace_name_from`]).
pub open spec fn replace_name(s: Seq<char>, old: Seq<char>, new: Seq<char>) -> Seq<char> {
    replace_name_from(s, old, new, 0)
}

/// `texture2DLodEXT`, `texture2DProjLodEXT`, `textureCubeLodEXT` and
/// `texture2DGradEXT` calls rewritten to `texture2D`, `texture2DProj`,
/// `textureCube` and `texture2D` without their last argument.
pub open spec fn replace_lod_calls(s: Seq<char>) -> Seq<char> {
    replace_name(
        replace_name(
            replace_name(replace_name(s, "texture2DLodEXT"@, "texture2D"@), "texture2DProjLodEXT"@, "texture2DProj"@),
            "textureCubeLodEXT"@,
            "textureCube"@,
        ),
        "texture2DGradEXT"@,
        "texture2D"@,
    )
}

/// The whole rewriting of a shader source: its lines sorted, the other
/// lines de-duplicated, the precision injected when asked for and the
/// source has no top-level one, and the `texture*LodEXT` calls rewritten
/// when the driver lacks them.
pub open spec fn patch_shader_spec(source: Seq<char>, texture_lod_ext_supported: bool, inject_default_float_precision: bool) -> Seq<char> {
    let parts = classify_lines(lines(source), texture_lod_ext_supported);
    let body = dedupe_lines(parts.2).0;
    let assembled = assemble_shader(
        (parts.0, parts.1, body),
        inject_default_float_precision && !has_default_float_precision(source),
    );
    if texture_lod_ext_supported {
        assembled
    } else {
        replace_lod_calls(assembled)
    }
}

pub proof fn lemma_find_from(s: Seq<char>, p: Seq<char>, i: int)
    ensures
        find_from(s, p, i) matches Some(k) ==> i <= k && matches_at(s, p, k),
    decreases s.len() + 1 - i,
{
    if !(i < 0 || i + p.len() > s.len()) && !matches_at(s, p, i) {
        lemma_find_from(s, p, i + 1);
    }
}

pub proof fn lemma_scan_close(s: Seq<char>, i: int, depth: int, comma: Option<int>)
    requires
        0 <= i,
        comma matches Some(c) ==> c < i,
    ensures
        scan_close(s, i, depth, comma).0 matches Some(close) ==> {
            &&& i <= close < s.len()
            &&& s[close] == ')'
            &&& scan_close(s, i, depth, comma).1 matches Some(c) ==> c < close && (comma == Some(c) || i <= c)
        },
    decreases s.len() - i,
{
    if 0 <= i < s.len() {
        if s[i] == '(' {
            lemma_scan_close(s, i + 1, depth + 1, comma);
        } else if s[i] == ')' {
            if depth - 1 != 0 {
                lemma_scan_close(s, i + 1, depth - 1, comma);
            }
        } else if s[i] == ',' && depth == 1 {
            lemma_scan_close(s, i + 1, depth, Some(i));
        } else {
            lemma_scan_close(s, i + 1, depth, comma);
        }
    }
}

pub proof fn lemma_trim_len(s: Seq<char>)
    ensures
        trim(s).len() <= s.len(),
{
    crate::text::lemma_skip_ws(s, 0);
    let t = s.subrange(crate::text::skip_ws(s, 0), s.len() as int);
    crate::text::lemma_trailing_ws_start(t, t.len() as int);
}

pub proof fn lemma_rewrite_shorter(
    s: Seq<char>,
    start: int,
    end: int,
    new: Seq<char>,
    paren: int,
    close: int,
    comma: Option<int>,
)
    requires
        0 <= start < end <= paren < close < s.len(),
        new.len() < end - start,
        s[paren] == '(',
        scan_close(s, paren, 0, None) == (Some(close), comma),
        scan_close(s, paren + 1, 1, None).0 matches Some(cl) ==> {
            &&& paren + 1 <= cl < s.len()
            &&& scan_close(s, paren + 1, 1, None).1 matches Some(c) ==> c < cl && paren + 1 <= c
        },
    ensures
        rewrite_call(s, start, end, new, paren, close, comma).len() < s.len(),
{
    assert(scan_close(s, paren, 0, None) == scan_close(s, paren + 1, 1, None));
    if let Some(c) = comma {
        lemma_trim_len(s.subrange(paren + 1, c));
    }
}

/// The words that the shader rewriting looks for, as characters.
struct ShaderWords {
    precision: Vec<char>,
    lowp: Vec<char>,
    mediump: Vec<char>,
    highp: Vec<char>,
    float: Vec<char>,
    version: Vec<char>,
    extension: Vec<char>,
    lod_extension: Vec<char>,
    default_precision: Vec<char>,
}

impl ShaderWords {
    spec fn wf(&self) -> bool {
        &&& self.precision@ == "precision"@
        &&& self.lowp@ == "lowp"@
        &&& self.mediump@ == "mediump"@
        &&& self.highp@ == "highp"@
        &&& self.float@ == "float"@
        &&& self.version@ == "#version"@
        &&& self.extension@ == "#extension"@
        &&& self.lod_extension@ == "GL_EXT_shader_texture_lod"@
        &&& self.default_precision@ == "precision mediump float;\n"@
    }

    fn new() -> (w: Self)
        ensures
            w.wf(),
    {
        ShaderWords {
            precision: str_chars("precision"),
            lowp: str_chars("lowp"),
            mediump: str_chars("mediump"),
            highp: str_chars("highp"),
            float: str_chars("float"),
            version: str_chars("#version"),
            extension: str_chars("#extension"),
            lod_extension: str_chars("GL_EXT_shader_texture_lod"),
            default_precision: str_chars("precision mediump float;\n"),
        }
    }
}

fn is_default_float_precision_line_exec(line: &[char], words: &ShaderWords) -> (r: bool)
    requires
        words.wf(),
    ensures
        r == is_default_float_precision_line(line@),
{
    let t = trim_chars(line);
    if !starts_with_exec(t.as_slice(), words.precision.as_slice()) {
        return false;
    }
    let rest = copy_range(t.as_slice(), words.precision.len(), t.len());
    let (qs, qe) = match first_token_exec(rest.as_slice()) {
        Some(range) => range,
        None => return false,
    };
    let q = copy_range(rest.as_slice(), qs, qe);
    let is_qualifier = chars_eq(q.as_slice(), words.lowp.as_slice()) || chars_eq(q.as_slice(), words.mediump.as_slice())
        || chars_eq(q.as_slice(), words.highp.as_slice());
    if !is_qualifier {
        return false;
    }
    let after = copy_range(rest.as_slice(), qe, rest.len());
    let (ts, te) = match first_token_exec(after.as_slice()) {
        Some(range) => range,
        None => return false,
    };
    let ty = copy_range(after.as_slice(), ts, te);
    starts_with_exec(ty.as_slice(), words.float.as_slice())
}

/// The brace depth after the characters `s`, from depth `d` (see
/// [`depth_after`]).
fn depth_after_exec(d: usize, s: &[char]) -> (r: usize)
    requires
        d + s@.len() <= usize::MAX,
    ensures
        r == depth_after(d as nat, s@),
{
    let mut depth = d;
    let mut k: usize = 0;
    while k < s.len()
        invariant
            k <= s@.len(),
            d + s@.len() <= usize::MAX,
            depth == depth_after(d as nat, s@.subrange(0, k as int)),
        decreases s@.len() - k,
    {
        proof {
            lemma_depth_after_bound(d as nat, s@.subrange(0, k as int));
            assert(s@.subrange(0, k + 1).drop_last() =~= s@.subrange(0, k as int));
        }
        if s[k] == '{' {
            depth = depth + 1;
        } else if s[k] == '}' {
            if depth > 0 {
                depth = depth - 1;
            }
        }
        k = k + 1;
    }
    assert(s@.subrange(0, s@.len() as int) =~= s@);
    depth
}

/// Returns `true` if the shader source contains a top-level default float
/// precision declaration (`precision lowp|mediump|highp float;`).
pub fn shader_has_default_float_precision(source: &str) -> (r: bool)
    ensures
        r == has_default_float_precision(source@),
{
    let words = ShaderWords::new();
    let chars = str_chars(source);
    let ls = split_lines(chars.as_slice());
    let ghost lv = ls@.map_values(|l: Vec<char>| l@);
    proof {
        lemma_lines_chars(source@);
    }
    let mut depth: usize = 0;
    let mut i: usize = 0;
    while i < ls.len()
        invariant
            words.wf(),
            lv == lines(source@),
            lv == ls@.map_values(|l: Vec<char>| l@),
            chars_before(lv, lv.len() as int) <= chars@.len(),
            chars@.len() <= usize::MAX,
            i <= ls@.len(),
            depth == line_depth(lv, i as int),
            forall|j: int| 0 <= j < i && line_depth(lv, j) == 0 ==> !#[trigger] is_default_float_precision_line(lv[j]),
        decreases ls@.len() - i,
    {
        if depth == 0 && is_default_float_precision_line_exec(ls[i].as_slice(), &words) {
            assert(is_default_float_precision_line(lv[i as int]));
            return true;
        }
        proof {
            lemma_line_depth_bound(lv, i as int);
            lemma_chars_before_mono(lv, i + 1, lv.len() as int);
        }
        depth = depth_after_exec(depth, ls[i].as_slice());
        i = i + 1;
    }
    false
}

/// Whether the characters `t` are the text `lit`.
fn chars_are(t: &[char], lit: &str) -> (r: bool)
    ensures
        r == (t@ == lit@),
{
    let l = str_chars(lit);
    chars_eq(t, l.as_slice())
}

fn is_glsl_type_exec(t: &[char]) -> (r: bool)
    ensures
        r == is_glsl_type(t@),
{
    chars_are(t, "float") || chars_are(t, "int") || chars_are(t, "bool") || chars_are(t, "vec2") || chars_are(t, "vec3")
        || chars_are(t, "vec4") || chars_are(t, "ivec2") || chars_are(t, "ivec3") || chars_are(t, "ivec4")
        || chars_are(t, "bvec2") || chars_are(t, "bvec3") || chars_are(t, "bvec4") || chars_are(t, "mat2")
        || chars_are(t, "mat3") || chars_are(t, "mat4") || chars_are(t, "sampler2D") || chars_are(t, "samplerCube")
}

fn is_local_qualifier_exec(t: &[char]) -> (r: bool)
    ensures
        r == is_local_qualifier(t@),
{
    chars_are(t, "const") || chars_are(t, "lowp") || chars_are(t, "mediump") || chars_are(t, "highp")
}

/// Whether the trimmed line `t` declares variables (see [`is_declaration`]).
fn is_declaration_exec(t: &[char]) -> (r: bool)
    ensures
        r == is_declaration(t@),
{
    if t.len() == 0 || t[t.len() - 1] != ';' {
        return false;
    }
    if has_char(t, '{') || has_char(t, '}') {
        return false;
    }
    let (s1, e1) = match first_token_exec(t) {
        None => return false,
        Some(range) => range,
    };
    let a = copy_range(t, s1, e1);
    if is_glsl_type_exec(a.as_slice()) {
        return true;
    }
    if !is_local_qualifier_exec(a.as_slice()) {
        return false;
    }
    let r1 = copy_range(t, e1, t.len());
    let (s2, e2) = match first_token_exec(r1.as_slice()) {
        None => return false,
        Some(range) => range,
    };
    let b = copy_range(r1.as_slice(), s2, e2);
    if is_glsl_type_exec(b.as_slice()) {
        return true;
    }
    if !is_local_qualifier_exec(b.as_slice()) {
        return false;
    }
    let r2 = copy_range(r1.as_slice(), e2, r1.len());
    let (s3, e3) = match first_token_exec(r2.as_slice()) {
        None => return false,
        Some(range) => range,
    };
    let c = copy_range(r2.as_slice(), s3, e3);
    is_glsl_type_exec(c.as_slice())
}

/// The open blocks as plain values.
pub open spec fn blocks_view(blocks: Seq<Vec<Vec<char>>>) -> Seq<Seq<Seq<char>>> {
    blocks.map_values(|b: Vec<Vec<char>>| b@.map_values(|d: Vec<char>| d@))
}

/// The open blocks after the characters of `line` (see [`blocks_after`]).
fn blocks_after_exec(blocks: &mut Vec<Vec<Vec<char>>>, line: &[char])
    ensures
        blocks_view(final(blocks)@) == blocks_after(blocks_view(old(blocks)@), line@),
{
    let ghost start = blocks_view(blocks@);
    let mut k: usize = 0;
    while k < line.len()
        invariant
            k <= line@.len(),
            blocks_view(blocks@) == blocks_after(start, line@.subrange(0, k as int)),
        decreases line@.len() - k,
    {
        let ghost before = blocks@;
        assert(line@.subrange(0, k + 1).drop_last() =~= line@.subrange(0, k as int));
        if line[k] == '{' {
            let fresh: Vec<Vec<char>> = Vec::new();
            assert(fresh@.map_values(|d: Vec<char>| d@) =~= Seq::<Seq<char>>::empty());
            blocks.push(fresh);
            assert(blocks_view(blocks@) =~= blocks_view(before).push(Seq::empty()));
        } else if line[k] == '}' && blocks.len() > 1 {
            let _ = blocks.pop();
            assert(blocks_view(blocks@) =~= blocks_view(before).drop_last());
        }
        k = k + 1;
    }
    assert(line@.subrange(0, line@.len() as int) =~= line@);
}

/// Whether `t` is among the declarations `seen`.
fn seen_in(seen: &Vec<Vec<char>>, t: &[char]) -> (r: bool)
    ensures
        r == seen@.map_values(|d: Vec<char>| d@).contains(t@),
{
    let ghost sv = seen@.map_values(|d: Vec<char>| d@);
    let mut k: usize = 0;
    while k < seen.len()
        invariant
            k <= seen@.len(),
            sv == seen@.map_values(|d: Vec<char>| d@),
            forall|j: int| 0 <= j < k ==> sv[j] != t@,
        decreases seen@.len() - k,
    {
        if chars_eq(seen[k].as_slice(), t) {
            assert(sv[k as int] == t@);
            return true;
        }
        k = k + 1;
    }
    false
}

/// The lines `ls` de-duplicated (see [`dedupe_lines`]).
fn dedupe_lines_exec(ls: &Vec<Vec<char>>) -> (r: Vec<Vec<char>>)
    ensures
        r@.map_values(|l: Vec<char>| l@) == dedupe_lines(ls@.map_values(|l: Vec<char>| l@)).0,
{
    let ghost lv = ls@.map_values(|l: Vec<char>| l@);
    let mut kept: Vec<Vec<char>> = Vec::new();
    let mut blocks: Vec<Vec<Vec<char>>> = Vec::new();
    blocks.push(Vec::new());
    assert(lv.take(0) =~= Seq::<Seq<char>>::empty());
    assert(kept@.map_values(|l: Vec<char>| l@) =~= Seq::<Seq<char>>::empty());
    assert(blocks_view(blocks@) =~= seq![Seq::<Seq<char>>::empty()]);
    let mut i: usize = 0;
    while i < ls.len()
        invariant
            i <= ls@.len(),
            lv == ls@.map_values(|l: Vec<char>| l@),
            dedupe_lines(lv.take(i as int)) == (kept@.map_values(|l: Vec<char>| l@), blocks_view(blocks@)),
        decreases ls@.len() - i,
    {
        assert(lv.take(i + 1).drop_last() =~= lv.take(i as int));
        assert(lv.take(i + 1).last() == lv[i as int]);
        let ghost before_kept = kept@.map_values(|l: Vec<char>| l@);
        let ghost before_blocks = blocks_view(blocks@);
        let line = ls[i].clone();
        let t = trim_chars(line.as_slice());
        if is_declaration_exec(t.as_slice()) && blocks.len() > 1 {
            let last = blocks.len() - 1;
            if seen_in(&blocks[last], t.as_slice()) {
            } else {
                let ghost all_before = blocks@;
                let mut top = blocks.pop().unwrap();
                let ghost top_before = top@;
                assert(top_before == all_before[last as int]@);
                assert(before_blocks.last() == top_before.map_values(|d: Vec<char>| d@));
                let ghost tv = t@;
                top.push(t);
                assert(top@.map_values(|d: Vec<char>| d@) =~= before_blocks.last().push(tv));
                blocks.push(top);
                assert(blocks@ =~= all_before.update(last as int, top));
                assert(blocks_view(blocks@) =~= before_blocks.update(last as int, before_blocks.last().push(trim(lv[i as int]))));
                kept.push(line);
                assert(kept@.map_values(|l: Vec<char>| l@) =~= before_kept.push(lv[i as int]));
            }
        } else {
            blocks_after_exec(&mut blocks, line.as_slice());
            kept.push(line);
            assert(kept@.map_values(|l: Vec<char>| l@) =~= before_kept.push(lv[i as int]));
        }
        i = i + 1;
    }
    assert(lv.take(ls@.len() as int) =~= lv);
    kept
}

/// `Option` of characters, viewed.
pub open spec fn opt_chars(o: Option<Vec<char>>) -> Option<Seq<char>> {
    match o {
        Some(v) => Some(v@),
        None => None,
    }
}

/// Appends `line` and a `\n` to `out`.
fn push_line(out: &mut Vec<char>, line: &[char])
    ensures
        final(out)@ == old(out)@ + line@ + seq!['\n'],
{
    let mut k: usize = 0;
    let ghost start = out@;
    while k < line.len()
        invariant
            k <= line@.len(),
            out@ =~= start + line@.subrange(0, k as int),
        decreases line@.len() - k,
    {
        out.push(line[k]);
        k = k + 1;
    }
    out.push('\n');
    assert(line@.subrange(0, line@.len() as int) =~= line@);
}

/// Appends every line of `ls`, each followed by `\n`, to `out`.
fn push_lines(out: &mut Vec<char>, ls: &Vec<Vec<char>>)
    ensures
        final(out)@ == old(out)@ + join_lines(ls@.map_values(|l: Vec<char>| l@)),
{
    let ghost start = out@;
    let ghost lv = ls@.map_values(|l: Vec<char>| l@);
    let mut k: usize = 0;
    assert(lv.take(0) =~= Seq::<Seq<char>>::empty());
    while k < ls.len()
        invariant
            k <= ls@.len(),
            lv == ls@.map_values(|l: Vec<char>| l@),
            out@ =~= start + join_lines(lv.take(k as int)),
        decreases ls@.len() - k,
    {
        push_line(out, ls[k].as_slice());
        assert(lv.take(k + 1).drop_last() =~= lv.take(k as int));
        k = k + 1;
    }
    assert(lv.take(ls@.len() as int) =~= lv);
}

/// Patch a GLSL ES shader source for compatibility with native ES 2.0
/// drivers that may not support all extensions the guest app expects:
/// `#extension` directives are hoisted right after `#version`; without
/// `GL_EXT_shader_texture_lod` its `#extension` line is dropped and the
/// `texture*LodEXT` calls lose their level-of-detail argument; a default
/// `precision mediump float;` is injected when asked for and the source has
/// no top-level one; and a variable declaration repeated word for word in
/// the same block of a function is dropped, which a driver would refuse as
/// a redeclaration.
pub fn patch_shader_for_native_es2(
    source: &str,
    texture_lod_ext_supported: bool,
    inject_default_float_precision: bool,
) -> (r: String)
    ensures
        r@ == patch_shader_spec(source@, texture_lod_ext_supported, inject_default_float_precision),
{
    let words = ShaderWords::new();
    let chars = str_chars(source);
    let ls = split_lines(chars.as_slice());
    let ghost lv = ls@.map_values(|l: Vec<char>| l@);
    let mut version: Option<Vec<char>> = None;
    let mut extension_lines: Vec<Vec<char>> = Vec::new();
    let mut body_lines: Vec<Vec<char>> = Vec::new();
    let mut i: usize = 0;
    assert(lv.take(0) =~= Seq::<Seq<char>>::empty());
    assert(extension_lines@.map_values(|l: Vec<char>| l@) =~= Seq::<Seq<char>>::empty());
    assert(body_lines@.map_values(|l: Vec<char>| l@) =~= Seq::<Seq<char>>::empty());
    while i < ls.len()
        invariant
            words.wf(),
            lv == lines(source@),
            lv == ls@.map_values(|l: Vec<char>| l@),
            i <= ls@.len(),
            classify_lines(lv.take(i as int), texture_lod_ext_supported) == (
                opt_chars(version),
                extension_lines@.map_values(|l: Vec<char>| l@),
                body_lines@.map_values(|l: Vec<char>| l@),
            ),
        decreases ls@.len() - i,
    {
        let line = ls[i].clone();
        assert(line@ == lv[i as int]);
        assert(lv.take(i + 1).drop_last() =~= lv.take(i as int));
        assert(lv.take(i + 1).last() == lv[i as int]);
        let ghost before_ext = extension_lines@.map_values(|l: Vec<char>| l@);
        let ghost before_body = body_lines@.map_values(|l: Vec<char>| l@);
        let trimmed = trim_chars(line.as_slice());
        if starts_with_exec(trimmed.as_slice(), words.version.as_slice()) && version.is_none() {
            version = Some(line);
        } else if starts_with_exec(trimmed.as_slice(), words.extension.as_slice()) {
            if !texture_lod_ext_supported && contains_exec(trimmed.as_slice(), words.lod_extension.as_slice()) {
            } else {
                extension_lines.push(line);
                assert(extension_lines@.map_values(|l: Vec<char>| l@) =~= before_ext.push(lv[i as int]));
            }
        } else {
            body_lines.push(line);
            assert(body_lines@.map_values(|l: Vec<char>| l@) =~= before_body.push(lv[i as int]));
        }
        i = i + 1;
    }
    assert(lv.take(ls@.len() as int) =~= lv);
    let body = dedupe_lines_exec(&body_lines);
    let has_precision = shader_has_default_float_precision(source);
    let mut out: Vec<char> = Vec::new();
    match &version {
        Some(v) => push_line(&mut out, v.as_slice()),
        None => {},
    }
    push_lines(&mut out, &extension_lines);
    if inject_default_float_precision && !has_precision {
        let mut extra = words.default_precision.clone();
        out.append(&mut extra);
    }
    push_lines(&mut out, &body);
    proof {
        let parts = classify_lines(lines(source@), texture_lod_ext_supported);
        assert(out@ =~= assemble_shader(
            (parts.0, parts.1, dedupe_lines(parts.2).0),
            inject_default_float_precision && !has_default_float_precision(source@),
        ));
    }
    if !texture_lod_ext_supported {
        out = replace_texture_lod_ext_chars(out.as_slice());
    }
    string_from_chars(out.as_slice())
}

fn is_ident_char_exec(c: char) -> (r: bool)
    ensures
        r == is_ident_char(c),
{
    let x = c as u32;
    (0x30 <= x && x <= 0x39) || (0x41 <= x && x <= 0x5a) || (0x61 <= x && x <= 0x7a) || x == 0x5f
}

/// Scans from the `(` at `paren` for the `)` that closes it and the last
/// top-level `,` before that.
fn scan_close_exec(s: &[char], paren: usize) -> (r: (Option<usize>, Option<usize>))
    requires
        paren < s@.len(),
        s@[paren as int] == '(',
    ensures
        scan_close(s@, paren as int, 0, None) == (
            match r.0 {
                Some(c) => Some(c as int),
                None => None::<int>,
            },
            match r.1 {
                Some(c) => Some(c as int),
                None => None::<int>,
            },
        ),
{
    let n = s.len();
    let mut depth: usize = 1;
    let mut comma: Option<usize> = None;
    let mut i = paren + 1;
    assert(scan_close(s@, paren as int, 0, None) == scan_close(s@, paren + 1, 1, None));
    while i < n
        invariant
            n == s@.len(),
            paren < i <= n,
            1 <= depth <= i - paren,
            scan_close(s@, paren as int, 0, None) == scan_close(
                s@,
                i as int,
                depth as int,
                match comma {
                    Some(c) => Some(c as int),
                    None => None::<int>,
                },
            ),
        decreases n - i,
    {
        let c = s[i];
        if c == '(' {
            depth = depth + 1;
        } else if c == ')' {
            if depth - 1 == 0 {
                return (Some(i), comma);
            }
            depth = depth - 1;
        } else if c == ',' && depth == 1 {
            comma = Some(i);
        }
        i = i + 1;
    }
    (None, comma)
}

/// The characters of `a`, then `b`.
fn concat(a: &[char], b: &[char]) -> (r: Vec<char>)
    ensures
        r@ == a@ + b@,
{
    let mut r = copy_range(a, 0, a.len());
    let mut t = copy_range(b, 0, b.len());
    assert(a@.subrange(0, a@.len() as int) =~= a@);
    assert(b@.subrange(0, b@.len() as int) =~= b@);
    r.append(&mut t);
    r
}

/// [`replace_name`] over characters.
fn replace_name_exec(s: Vec<char>, old: &[char], new: &[char]) -> (r: Vec<char>)
    requires
        new@.len() < old@.len(),
    ensures
        r@ == replace_name(s@, old@, new@),
{
    let mut result = s;
    let mut from: usize = 0;
    loop
        invariant
            new@.len() < old@.len(),
            from <= result@.len(),
            replace_name(s@, old@, new@) == replace_name_from(result@, old@, new@, from as int),
        decreases result@.len(), result@.len() - from,
    {
        let ghost cur = result@;
        let n = result.len();
        proof {
            lemma_find_from(cur, old@, from as int);
        }
        let start = match find_from_exec(result.as_slice(), old, from) {
            Some(k) => k,
            None => return result,
        };
        let end = start + old.len();
        let before_ok = start == 0 || !is_ident_char_exec(result[start - 1]);
        let after_ok = end >= result.len() || !is_ident_char_exec(result[end]);
        if !before_ok || !after_ok {
            from = start + 1;
            continue;
        }
        proof {
            lemma_find_char_from(cur, '(', end as int);
        }
        let paren = match find_char_from_exec(result.as_slice(), '(', end) {
            Some(p) => p,
            None => return result,
        };
        let (close, comma) = scan_close_exec(result.as_slice(), paren);
        let close = match close {
            Some(c) => c,
            None => return result,
        };
        proof {
            lemma_scan_close(cur, paren + 1, 1, None);
            assert(scan_close(cur, paren as int, 0, None) == scan_close(cur, paren + 1, 1, None));
        }
        let ghost comma_view = match comma {
            Some(c) => Some(c as int),
            None => None::<int>,
        };
        let head = copy_range(result.as_slice(), 0, start);
        let with_name = concat(head.as_slice(), new);
        let next = match comma {
            Some(c) => {
                let inner = copy_range(result.as_slice(), paren + 1, c);
                let trimmed = trim_chars(inner.as_slice());
                let mut v = with_name;
                v.push('(');
                let mut t = trimmed;
                v.append(&mut t);
                v.push(')');
                let tail = copy_range(result.as_slice(), close + 1, result.len());
                concat(v.as_slice(), tail.as_slice())
            },
            None => {
                let tail = copy_range(result.as_slice(), end, result.len());
                concat(with_name.as_slice(), tail.as_slice())
            },
        };
        proof {
            assert(next@ =~= rewrite_call(cur, start as int, end as int, new@, paren as int, close as int, comma_view));
            lemma_rewrite_shorter(cur, start as int, end as int, new@, paren as int, close as int, comma_view);
        }
        result = next;
        from = 0;
    }
}

/// [`replace_lod_calls`] over characters.
fn replace_texture_lod_ext_chars(s: &[char]) -> (r: Vec<char>)
    ensures
        r@ == replace_lod_calls(s@),
{
    proof {
        reveal_strlit("texture2DLodEXT");
        reveal_strlit("texture2D");
        reveal_strlit("texture2DProjLodEXT");
        reveal_strlit("texture2DProj");
        reveal_strlit("textureCubeLodEXT");
        reveal_strlit("textureCube");
        reveal_strlit("texture2DGradEXT");
    }
    let lod = str_chars("texture2DLodEXT");
    let plain = str_chars("texture2D");
    let proj_lod = str_chars("texture2DProjLodEXT");
    let proj = str_chars("texture2DProj");
    let cube_lod = str_chars("textureCubeLodEXT");
    let cube = str_chars("textureCube");
    let grad = str_chars("texture2DGradEXT");
    let r = copy_range(s, 0, s.len());
    assert(s@.subrange(0, s@.len() as int) =~= s@);
    let r = replace_name_exec(r, lod.as_slice(), plain.as_slice());
    let r = replace_name_exec(r, proj_lod.as_slice(), proj.as_slice());
    let r = replace_name_exec(r, cube_lod.as_slice(), cube.as_slice());
    replace_name_exec(r, grad.as_slice(), plain.as_slice())
}

/// Replace `texture2DLodEXT(sampler, coord, lod)` with `texture2D(sampler, coord)`,
/// `texture2DProjLodEXT(sampler, coord, lod)` with `texture2DProj(sampler, coord)`,
/// `textureCubeLodEXT(sampler, coord, lod)` with `textureCube(sampler, coord)`
/// and `texture2DGradEXT(...)` with `texture2D(...)` less its last argument.
///
/// For each name, standalone calls are rewritten from the first on; an
/// occurrence that is part of a longer identifier is skipped, and the
/// rewriting of a name stops at the first call with no closed argument
/// list.
pub fn replace_texture_lod_ext_calls(source: &str) -> (r: String)
    ensures
        r@ == replace_lod_calls(source@),
{
    let chars = str_chars(source);
    let out = replace_texture_lod_ext_chars(chars.as_slice());
    string_from_chars(out.as_slice())
}

/// Whether `cap` is an ES 1.1 fixed-function capability with no ES 2.0
/// counterpart, which an ES 2.0 driver would refuse with
/// `GL_INVALID_ENUM`: texturing, lighting and fog, the client arrays,
/// `GL_LIGHT0` to `GL_LIGHT7` and `GL_CLIP_PLANE0` to `GL_CLIP_PLANE5`.
pub open spec fn es1_only_capability(cap: u32) -> bool {
    ||| cap == TEXTURE_2D
    ||| cap == LIGHTING
    ||| cap == FOG
    ||| cap == ALPHA_TEST
    ||| cap == COLOR_MATERIAL
    ||| cap == RESCALE_NORMAL
    ||| cap == NORMALIZE
    ||| cap == POINT_SMOOTH
    ||| cap == LINE_SMOOTH
    ||| cap == COLOR_ARRAY
    ||| cap == NORMAL_ARRAY
    ||| cap == VERTEX_ARRAY
    ||| cap == TEXTURE_COORD_ARRAY
    ||| LIGHT0 <= cap <= LIGHT7
    ||| CLIP_PLANE0 <= cap <= CLIP_PLANE5
}

pub fn is_es1_only_capability(cap: u32) -> (r: bool)
    ensures
        r == es1_only_capability(cap),
{
    cap == TEXTURE_2D || cap == LIGHTING || cap == FOG || cap == ALPHA_TEST || cap == COLOR_MATERIAL || cap
        == RESCALE_NORMAL || cap == NORMALIZE || cap == POINT_SMOOTH || cap == LINE_SMOOTH || cap == COLOR_ARRAY
        || cap == NORMAL_ARRAY || cap == VERTEX_ARRAY || cap == TEXTURE_COORD_ARRAY || (LIGHT0 <= cap && cap
        <= LIGHT7) || (CLIP_PLANE0 <= cap && cap <= CLIP_PLANE5)
}

/// Whether `target` is a `glHint` target that exists only in ES 1.1
/// (`GL_GENERATE_MIPMAP_HINT` is valid in ES 2.0 and is not one).
pub open spec fn es1_only_hint_target(target: u32) -> bool {
    target == PERSPECTIVE_CORRECTION_HINT || target == FOG_HINT || target == POINT_SMOOTH_HINT || target
        == LINE_SMOOTH_HINT
}

pub fn is_es1_only_hint_target(target: u32) -> (r: bool)
    ensures
        r == es1_only_hint_target(target),
{
    target == PERSPECTIVE_CORRECTION_HINT || target == FOG_HINT || target == POINT_SMOOTH_HINT || target
        == LINE_SMOOTH_HINT
}

/// Whether `s[i..j]` is one of the pieces that splitting `s` at each space
/// gives.
pub open spec fn is_space_piece(s: Seq<char>, i: int, j: int) -> bool {
    &&& 0 <= i <= j <= s.len()
    &&& (i == 0 || s[i - 1] == ' ')
    &&& (j == s.len() || s[j] == ' ')
    &&& forall|m: int| i <= m < j ==> s[m] != ' '
}

/// Whether the extension string lists `name`: it is present, not empty,
/// and one of its space-separated pieces is `name`.
pub open spec fn extension_listed_spec(extensions: Option<Seq<char>>, name: Seq<char>) -> bool {
    match extensions {
        None => false,
        Some(s) => s.len() > 0 && exists|i: int, j: int| #[trigger] is_space_piece(s, i, j) && s.subrange(i, j) == name,
    }
}

/// Whether the driver's extension string (`None` where it could not be
/// read as text) lists `name`.
#[verifier::spinoff_prover]
pub fn extension_listed(extensions: Option<&str>, name: &str) -> (r: bool)
    ensures
        r == extension_listed_spec(
            match extensions {
                Some(e) => Some(e@),
                None => None,
            },
            name@,
        ),
{
    let e = match extensions {
        None => return false,
        Some(e) => e,
    };
    let s = str_chars(e);
    if s.len() == 0 {
        return false;
    }
    let wanted = str_chars(name);
    let mut start: usize = 0;
    let mut k: usize = 0;
    loop
        invariant
            start <= k <= s@.len(),
            extensions == Some(e),
            s@ == e@,
            s@.len() > 0,
            wanted@ == name@,
            start == 0 || s@[start - 1] == ' ',
            forall|m: int| start <= m < k ==> s@[m] != ' ',
            forall|i: int, j: int| #[trigger] is_space_piece(s@, i, j) && j < start ==> s@.subrange(i, j) != name@,
        decreases s@.len() - k,
    {
        if k == s.len() || s[k] == ' ' {
            let piece = copy_range(s.as_slice(), start, k);
            assert(is_space_piece(s@, start as int, k as int));
            if chars_eq(piece.as_slice(), wanted.as_slice()) {
                assert(s@.subrange(start as int, k as int) == name@);
                assert(is_space_piece(e@, start as int, k as int) && e@.subrange(start as int, k as int) == name@);
                assert(extension_listed_spec(Some(e@), name@));
                return true;
            }
            assert forall|i: int, j: int| #[trigger] is_space_piece(s@, i, j) && j <= k implies s@.subrange(i, j) != name@ by {
                if j == k {
                    if i < start {
                        assert(s@[start - 1] == ' ');
                    } else if i > start {
                        assert(s@[i - 1] == ' ');
                    }
                } else if j >= start {
                    assert(s@[j] == ' ');
                }
            }
            if k == s.len() {
                return false;
            }
            start = k + 1;
        }
        k = k + 1;
    }
}

/// Whether the driver offers `GL_IMG_texture_compression_pvrtc`, by its
/// extension string (`None` where there is none to read).
pub fn detect_pvrtc_support(extensions: Option<&str>) -> (r: bool)
    ensures
        r == extension_listed_spec(
            match extensions {
                Some(e) => Some(e@),
                None => None,
            },
            "GL_IMG_texture_compression_pvrtc"@,
        ),
{
    extension_listed(extensions, "GL_IMG_texture_compression_pvrtc")
}

/// Whether the driver offers `GL_EXT_shader_texture_lod`, by its extension
/// string.
pub fn detect_texture_lod_ext_support(extensions: Option<&str>) -> (r: bool)
    ensures
        r == extension_listed_spec(
            match extensions {
                Some(e) => Some(e@),
                None => None,
            },
            "GL_EXT_shader_texture_lod"@,
        ),
{
    extension_listed(extensions, "GL_EXT_shader_texture_lod")
}

/// What a guest shader source needs before an ES 2.0 driver compiles it:
/// nothing (`None`), or the patched source. It is patched when it has an
/// `#extension` directive, when it calls `texture*LodEXT` functions the
/// driver lacks, or when it is a fragment shader without a default float
/// precision; a patched source with a NUL in it cannot be handed over and
/// the guest's own pieces go through instead.
pub open spec fn shader_source_patch_spec(source: Seq<char>, is_fragment: bool, texture_lod_ext_supported: bool) -> Option<
    Seq<char>,
> {
    let needs_precision = is_fragment && !has_default_float_precision(source);
    let needs_lod = !texture_lod_ext_supported && (contains(source, "texture2DLodEXT"@) || contains(
        source,
        "texture2DProjLodEXT"@,
    ) || contains(source, "textureCubeLodEXT"@));
    if !(contains(source, "#extension"@) || needs_lod || needs_precision) {
        None
    } else {
        let patched = patch_shader_spec(source, texture_lod_ext_supported, needs_precision);
        if patched.contains('\0') {
            None
        } else {
            Some(patched)
        }
    }
}

/// Whether `s` holds the character `c`.
fn has_char(s: &[char], c: char) -> (r: bool)
    ensures
        r == s@.contains(c),
{
    let mut i: usize = 0;
    while i < s.len()
        invariant
            i <= s@.len(),
            forall|k: int| 0 <= k < i ==> s@[k] != c,
        decreases s@.len() - i,
    {
        if s[i] == c {
            return true;
        }
        i = i + 1;
    }
    false
}

fn contains_str(s: &[char], p: &str) -> (r: bool)
    ensures
        r == contains(s@, p@),
{
    let pc = str_chars(p);
    contains_exec(s, pc.as_slice())
}

/// What the `GL_GENERATE_MIPMAP` texture parameter of ES 1.1 becomes on
/// ES 2.0, where it is no parameter.
#[derive(Debug, Clone, Copy, PartialEq, Eq, Structural)]
pub enum TexParameterAction {
    /// Pass the parameter on.
    Forward,
    /// Call `glGenerateMipmap` for the target instead.
    GenerateMipmap,
    /// Drop it.
    Ignore,
}

/// The action for a `glTexParameter*` call with `pname`, whose value is
/// nonzero or not.
pub fn tex_parameter_action(pname: u32, value_nonzero: bool) -> (a: TexParameterAction)
    ensures
        a == if pname != GENERATE_MIPMAP {
            TexParameterAction::Forward
        } else if value_nonzero {
            TexParameterAction::GenerateMipmap
        } else {
            TexParameterAction::Ignore
        },
{
    if pname == GENERATE_MIPMAP {
        if value_nonzero {
            TexParameterAction::GenerateMipmap
        } else {
            TexParameterAction::Ignore
        }
    } else {
        TexParameterAction::Forward
    }
}

/// The vertex attribute type to hand the driver: the ES 2.0 extension's
/// half-float token becomes the core `GL_HALF_FLOAT`.
pub fn vertex_attrib_type(type_: u32) -> (t: u32)
    ensures
        t == if type_ == HALF_FLOAT_OES { HALF_FLOAT } else { type_ },
{
    if type_ == HALF_FLOAT_OES {
        HALF_FLOAT
    } else {
        type_
    }
}

/// The fixed-function program's texture mode for a texture environment mode:
/// 2 replace, 3 add, 4 decal, 1 (modulate) for anything else.
pub fn texture_mode_uniform(mode: u32) -> (v: i32)
    ensures
        v == if mode == REPLACE {
            2i32
        } else if mode == ADD {
            3i32
        } else if mode == DECAL {
            4i32
        } else {
            1i32
        },
{
    if mode == REPLACE {
        2
    } else if mode == ADD {
        3
    } else if mode == DECAL {
        4
    } else {
        1
    }
}

/// The attribute type the driver sees for a client array: fixed-point
/// arrays are handed over converted to floats.
pub fn attrib_pointer_type(type_: u32) -> (t: u32)
    ensures
        t == if type_ == FIXED { FLOAT } else { type_ },
{
    if type_ == FIXED {
        FLOAT
    } else {
        type_
    }
}

/// The fixed-function program's attribute slots.
pub const FIXED_ATTR_POSITION: u32 = 0;
pub const FIXED_ATTR_COLOR: u32 = 1;
pub const FIXED_ATTR_NORMAL: u32 = 2;
pub const FIXED_ATTR_TEXCOORD0: u32 = 3;
pub const FIXED_ATTR_TEXCOORD1: u32 = 4;

/// Whether the driver normalizes an attribute's values: colors given as
/// unsigned bytes are.
pub fn attrib_normalized(attr: u32, type_: u32) -> (r: bool)
    ensures
        r == (attr == FIXED_ATTR_COLOR && type_ == UNSIGNED_BYTE),
{
    attr == FIXED_ATTR_COLOR && type_ == UNSIGNED_BYTE
}

/// How a client array reaches the fixed-function program.
#[derive(Debug, Clone, Copy, PartialEq, Eq, Structural)]
pub enum FixedArrayPlan {
    /// No array: the attribute takes its constant value.
    Absent,
    /// The array is handed over as it is.
    Direct,
    /// The array is fixed-point in a buffer object, which is not converted;
    /// the conversion buffer is still sized to `converted_len` floats.
    InBuffer { converted_len: usize },
    /// The array is fixed-point in client memory: `vertices` vertices of
    /// `components` 32-bit components, `stride` bytes apart, are read and
    /// converted into `converted_len` floats.
    Convert { components: usize, stride: usize, vertices: usize, converted_len: usize },
}

/// The plan for `array` when drawing `count` vertices from `first`.
pub open spec fn fixed_array_plan_spec(array: FixedArrayState, first: i32, count: i32) -> FixedArrayPlan {
    if array.pointer == 0 || count <= 0 {
        FixedArrayPlan::Absent
    } else if array.type_ != FIXED {
        FixedArrayPlan::Direct
    } else {
        let components = if array.size < 1 { 1int } else if array.size > 4 { 4int } else { array.size as int };
        let stride = if array.stride == 0 { components * 4 } else { array.stride as int };
        let start = if first < 0 { 0int } else { first as int };
        let vertices = start + count;
        let total = vertices * components;
        if array.buffer_binding != 0 {
            FixedArrayPlan::InBuffer { converted_len: total as usize }
        } else {
            FixedArrayPlan::Convert {
                components: components as usize,
                stride: stride as usize,
                vertices: vertices as usize,
                converted_len: total as usize,
            }
        }
    }
}

pub fn fixed_array_plan(array: &FixedArrayState, first: i32, count: i32) -> (p: FixedArrayPlan)
    requires
        array.stride >= 0,
        (if first < 0 { 0 } else { first as int }) + count <= usize::MAX / 4,
    ensures
        p == fixed_array_plan_spec(*array, first, count),
{
    if array.pointer == 0 || count <= 0 {
        return FixedArrayPlan::Absent;
    }
    if array.type_ != FIXED {
        return FixedArrayPlan::Direct;
    }
    let components: usize = if array.size < 1 {
        1
    } else if array.size > 4 {
        4
    } else {
        array.size as usize
    };
    let stride: usize = if array.stride == 0 { components * 4 } else { array.stride as usize };
    let start: usize = if first < 0 { 0 } else { first as usize };
    let vertices: usize = start + count as usize;
    assert(vertices * components <= vertices * 4) by (nonlinear_arith)
        requires
            components <= 4,
    ;
    let total = vertices * components;
    if array.buffer_binding != 0 {
        FixedArrayPlan::InBuffer { converted_len: total }
    } else {
        FixedArrayPlan::Convert { components, stride, vertices, converted_len: total }
    }
}

/// The little-endian 16-bit value at `bytes[2 * i ..]`.
pub open spec fn u16_at(bytes: Seq<u8>, i: int) -> u16 {
    (bytes[2 * i] + 256 * bytes[2 * i + 1]) as u16
}

/// The `count` indices of type `type_` that `bytes` holds, as 16-bit
/// indices; `None` where nothing is drawn: no indices, or a type other
/// than unsigned byte or short.
pub open spec fn decoded_indices(bytes: Seq<u8>, type_: u32, count: i32) -> Option<Seq<u16>> {
    if count <= 0 {
        None
    } else if type_ == UNSIGNED_BYTE {
        Some(Seq::new(count as nat, |i: int| bytes[i] as u16))
    } else if type_ == UNSIGNED_SHORT {
        Some(Seq::new(count as nat, |i: int| u16_at(bytes, i)))
    } else {
        None
    }
}

/// Decodes the element indices of a fixed-function draw (`bytes` holds
/// them as the guest wrote them, little-endian).
pub fn decode_indices(bytes: &[u8], type_: u32, count: i32) -> (r: Option<Vec<u16>>)
    requires
        type_ == UNSIGNED_BYTE ==> count <= bytes@.len(),
        type_ == UNSIGNED_SHORT ==> 2 * count <= bytes@.len(),
    ensures
        match decoded_indices(bytes@, type_, count) {
            Some(v) => r is Some && r->Some_0@ == v,
            None => r is None,
        },
{
    if count <= 0 || (type_ != UNSIGNED_BYTE && type_ != UNSIGNED_SHORT) {
        return None;
    }
    let n = count as usize;
    let ghost expected = decoded_indices(bytes@, type_, count)->Some_0;
    let mut out: Vec<u16> = Vec::new();
    let mut i: usize = 0;
    while i < n
        invariant
            i <= n,
            n == count,
            count > 0,
            type_ == UNSIGNED_BYTE || type_ == UNSIGNED_SHORT,
            type_ == UNSIGNED_BYTE ==> count <= bytes@.len(),
            type_ == UNSIGNED_SHORT ==> 2 * count <= bytes@.len(),
            expected == decoded_indices(bytes@, type_, count)->Some_0,
            expected.len() == n,
            out@ == expected.subrange(0, i as int),
        decreases n - i,
    {
        let value: u16 = if type_ == UNSIGNED_BYTE {
            bytes[i] as u16
        } else {
            bytes[2 * i] as u16 + 256 * (bytes[2 * i + 1] as u16)
        };
        out.push(value);
        assert(out@ =~= expected.subrange(0, i + 1));
        i = i + 1;
    }
    Some(out)
}

/// `"version / vendor / renderer"`, the driver's description.
pub fn driver_description(version: &str, vendor: &str, renderer: &str) -> (r: String)
    ensures
        r@ == version@ + " / "@ + vendor@ + " / "@ + renderer@,
{
    let mut chars = str_chars(version);
    let mut sep1 = str_chars(" / ");
    let mut v = str_chars(vendor);
    let mut sep2 = str_chars(" / ");
    let mut rd = str_chars(renderer);
    chars.append(&mut sep1);
    chars.append(&mut v);
    chars.append(&mut sep2);
    chars.append(&mut rd);
    string_from_chars(chars.as_slice())
}

/// An OpenGL ES 2.0 context of the native backend: whether its entry
/// points are loaded, what the driver was found to support, and the
/// fixed-function state kept for ES 1.1 guests.
pub struct GLES2NativeContext<M, A> {
    pub is_loaded: bool,
    /// Whether the driver takes PVRTC textures itself.
    pub pvrtc_native: bool,
    /// Whether the driver's extensions have been looked at yet.
    pub pvrtc_native_checked: bool,
    pub texture_lod_ext_supported: bool,
    pub fixed_state: GLES2FixedState<M, A>,
}

impl<M: Copy, A> GLES2NativeContext<M, A> {
    pub fn description() -> (d: &'static str)
        ensures
            d@ == "Native OpenGL ES 2.0"@,
    {
        "Native OpenGL ES 2.0"
    }

    /// A context not yet loaded, whose fixed-function state starts out as
    /// [`GLES2FixedState::new`] gives it.
    pub fn new(identity: M, attributes: A) -> (c: Self)
        ensures
            !c.is_loaded,
            !c.pvrtc_native,
            !c.pvrtc_native_checked,
            !c.texture_lod_ext_supported,
            c.fixed_state.is_initial(identity, attributes),
    {
        GLES2NativeContext {
            is_loaded: false,
            pvrtc_native: false,
            pvrtc_native_checked: false,
            texture_lod_ext_supported: false,
            fixed_state: GLES2FixedState::new(identity, attributes),
        }
    }

    /// Whether making the context current must load the driver's entry
    /// points: unless it is current and loaded already.
    pub fn needs_load(&self, is_current: bool) -> (r: bool)
        ensures
            r == !(is_current && self.is_loaded),
    {
        !(is_current && self.is_loaded)
    }

    /// Whether the driver's extension string must be read on loading.
    pub fn needs_extension_check(&self) -> (r: bool)
        ensures
            r == !self.pvrtc_native_checked,
    {
        !self.pvrtc_native_checked
    }

    /// Records that the entry points are loaded; the first time, also what
    /// the driver's extension string says it supports.
    pub fn finish_load(&mut self, extensions: Option<&str>)
        ensures
            final(self).is_loaded,
            final(self).pvrtc_native_checked,
            old(self).pvrtc_native_checked ==> final(self).pvrtc_native == old(self).pvrtc_native
                && final(self).texture_lod_ext_supported == old(self).texture_lod_ext_supported,
            !old(self).pvrtc_native_checked ==> {
                let e = match extensions {
                    Some(e) => Some(e@),
                    None => None,
                };
                &&& final(self).pvrtc_native == extension_listed_spec(e, "GL_IMG_texture_compression_pvrtc"@)
                &&& final(self).texture_lod_ext_supported == extension_listed_spec(e, "GL_EXT_shader_texture_lod"@)
            },
            final(self).fixed_state == old(self).fixed_state,
    {
        self.is_loaded = true;
        if !self.pvrtc_native_checked {
            self.pvrtc_native = detect_pvrtc_support(extensions);
            self.texture_lod_ext_supported = detect_texture_lod_ext_support(extensions);
            self.pvrtc_native_checked = true;
        }
    }

    /// The backend for the current context.
    pub fn native(&mut self) -> (n: GLES2Native<'_, M, A>)
        ensures
            n.pvrtc_native == old(self).pvrtc_native,
            n.texture_lod_ext_supported == old(self).texture_lod_ext_supported,
            *n.fixed_state == old(self).fixed_state,
    {
        GLES2Native {
            pvrtc_native: self.pvrtc_native,
            texture_lod_ext_supported: self.texture_lod_ext_supported,
            fixed_state: &mut self.fixed_state,
        }
    }
}

/// The native ES 2.0 backend while its context is current: what the driver
/// supports, and the context's fixed-function state. Its methods make the
/// decisions of the GL entry points that are more than a call of the
/// driver; they say whether the driver must still be called.
pub struct GLES2Native<'a, M, A> {
    pub pvrtc_native: bool,
    pub texture_lod_ext_supported: bool,
    pub fixed_state: &'a mut GLES2FixedState<M, A>,
}

impl<'a, M, A> GLES2Native<'a, M, A> {
    /// The fixed-function state as it stands.
    pub open spec fn state(&self) -> GLES2FixedState<M, A> {
        *self.fixed_state
    }

    /// Whether `a` and `b` agree on what the driver supports.
    pub open spec fn same_support(a: &Self, b: &Self) -> bool {
        a.pvrtc_native == b.pvrtc_native && a.texture_lod_ext_supported == b.texture_lod_ext_supported
    }
}

#[allow(non_snake_case)]
impl<'a, M: Copy, A> GLES2Native<'a, M, A> {
    pub fn is_es2(&self) -> (r: bool)
        ensures
            r,
    {
        true
    }

    /// `glEnable`: a capability the fixed-function state tracks is set
    /// there (and turns fixed-function emulation on); other ES 1.1-only
    /// capabilities are dropped; the rest go to the driver (true).
    pub fn Enable(&mut self, cap: u32) -> (forward: bool)
        ensures
            forward == (old(self).fixed_state.cap_target(cap) is None && !es1_only_capability(cap)),
            old(self).fixed_state.cap_target(cap) is Some ==> final(self).fixed_state.cap_enabled(cap) == Some(true)
                && final(self).fixed_state.fixed_pipeline_active,
            old(self).fixed_state.cap_target(cap) is None ==> *final(self).fixed_state == *old(self).fixed_state,
            final(self).pvrtc_native == old(self).pvrtc_native,
            final(self).texture_lod_ext_supported == old(self).texture_lod_ext_supported,
    {
        self.set_capability(cap, true)
    }

    /// `glDisable`, as [`GLES2Native::Enable`].
    pub fn Disable(&mut self, cap: u32) -> (forward: bool)
        ensures
            forward == (old(self).fixed_state.cap_target(cap) is None && !es1_only_capability(cap)),
            old(self).fixed_state.cap_target(cap) is Some ==> final(self).fixed_state.cap_enabled(cap) == Some(false)
                && final(self).fixed_state.fixed_pipeline_active,
            old(self).fixed_state.cap_target(cap) is None ==> *final(self).fixed_state == *old(self).fixed_state,
            final(self).pvrtc_native == old(self).pvrtc_native,
            final(self).texture_lod_ext_supported == old(self).texture_lod_ext_supported,
    {
        self.set_capability(cap, false)
    }

    fn set_capability(&mut self, cap: u32, enabled: bool) -> (forward: bool)
        ensures
            forward == (old(self).fixed_state.cap_target(cap) is None && !es1_only_capability(cap)),
            old(self).fixed_state.cap_target(cap) is Some ==> final(self).fixed_state.cap_enabled(cap) == Some(enabled)
                && final(self).fixed_state.fixed_pipeline_active,
            old(self).fixed_state.cap_target(cap) is None ==> *final(self).fixed_state == *old(self).fixed_state,
            final(self).pvrtc_native == old(self).pvrtc_native,
            final(self).texture_lod_ext_supported == old(self).texture_lod_ext_supported,
    {
        if self.fixed_state.enable(cap, enabled) {
            self.fixed_state.fixed_pipeline_active = true;
            return false;
        }
        !is_es1_only_capability(cap)
    }

    /// `glEnableClientState`: tracked arrays are enabled (and
    /// fixed-function emulation turned on); nothing reaches the driver.
    pub fn EnableClientState(&mut self, array: u32)
        ensures
            old(self).fixed_state.cap_target(array) is Some ==> final(self).fixed_state.cap_enabled(array) == Some(true)
                && final(self).fixed_state.fixed_pipeline_active,
            old(self).fixed_state.cap_target(array) is None ==> *final(self).fixed_state == *old(self).fixed_state,
            Self::same_support(final(self), old(self)),
    {
        if self.fixed_state.enable(array, true) {
            self.fixed_state.fixed_pipeline_active = true;
        }
    }

    /// `glDisableClientState`, as [`GLES2Native::EnableClientState`].
    pub fn DisableClientState(&mut self, array: u32)
        ensures
            old(self).fixed_state.cap_target(array) is Some ==> final(self).fixed_state.cap_enabled(array) == Some(false)
                && final(self).fixed_state.fixed_pipeline_active,
            old(self).fixed_state.cap_target(array) is None ==> *final(self).fixed_state == *old(self).fixed_state,
            Self::same_support(final(self), old(self)),
    {
        if self.fixed_state.enable(array, false) {
            self.fixed_state.fixed_pipeline_active = true;
        }
    }

    /// `glIsEnabled`: the answer where this backend knows it (the tracked
    /// capabilities, and false for other ES 1.1-only ones); `None` where
    /// the driver must be asked.
    pub fn IsEnabled(&self, cap: u32) -> (r: Option<bool>)
        ensures
            r == match self.state().cap_enabled(cap) {
                Some(b) => Some(b),
                None => if es1_only_capability(cap) {
                    Some(false)
                } else {
                    None
                },
            },
    {
        if let Some(enabled) = self.fixed_state.is_enabled(cap) {
            return Some(enabled);
        }
        if is_es1_only_capability(cap) {
            return Some(false);
        }
        None
    }

    /// `glHint`: whether the driver gets it (not for ES 1.1-only targets).
    pub fn Hint(&self, target: u32) -> (forward: bool)
        ensures
            forward == !es1_only_hint_target(target),
    {
        !is_es1_only_hint_target(target)
    }

    /// `glBindBuffer`: the array and element array bindings are tracked;
    /// the call always goes on to the driver.
    pub fn BindBuffer(&mut self, target: u32, buffer: u32)
        ensures
            final(self).fixed_state.array_buffer == if target == ARRAY_BUFFER {
                buffer
            } else {
                old(self).fixed_state.array_buffer
            },
            final(self).fixed_state.element_array_buffer == if target == ELEMENT_ARRAY_BUFFER {
                buffer
            } else {
                old(self).fixed_state.element_array_buffer
            },
            *final(self).fixed_state == (GLES2FixedState {
                array_buffer: final(self).fixed_state.array_buffer,
                element_array_buffer: final(self).fixed_state.element_array_buffer,
                ..*old(self).fixed_state
            }),
            Self::same_support(final(self), old(self)),
    {
        if target == ARRAY_BUFFER {
            self.fixed_state.array_buffer = buffer;
        } else if target == ELEMENT_ARRAY_BUFFER {
            self.fixed_state.element_array_buffer = buffer;
        }
    }

    /// `glActiveTexture`, tracked; the call goes on to the driver.
    pub fn ActiveTexture(&mut self, texture: u32)
        ensures
            *final(self).fixed_state == (GLES2FixedState { active_texture: texture, ..*old(self).fixed_state }),
            Self::same_support(final(self), old(self)),
    {
        self.fixed_state.active_texture = texture;
    }

    /// `glClientActiveTexture`, tracked only.
    pub fn ClientActiveTexture(&mut self, texture: u32)
        ensures
            *final(self).fixed_state == (GLES2FixedState { client_active_texture: texture, ..*old(self).fixed_state }),
            Self::same_support(final(self), old(self)),
    {
        self.fixed_state.client_active_texture = texture;
    }

    /// `glBindTexture`: a 2D binding of a tracked unit is recorded; the call
    /// goes on to the driver.
    pub fn BindTexture(&mut self, target: u32, texture: u32)
        ensures
            ({
                let unit = unit_of(old(self).fixed_state.active_texture);
                final(self).fixed_state.bound_textures@ == if target == TEXTURE_2D && unit < TEXTURE_UNITS {
                    old(self).fixed_state.bound_textures@.update(unit, texture)
                } else {
                    old(self).fixed_state.bound_textures@
                }
            }),
            *final(self).fixed_state == (GLES2FixedState {
                bound_textures: final(self).fixed_state.bound_textures,
                ..*old(self).fixed_state
            }),
            Self::same_support(final(self), old(self)),
    {
        if target == TEXTURE_2D {
            let unit = unit_index(self.fixed_state.active_texture);
            if unit < TEXTURE_UNITS {
                self.fixed_state.bound_textures[unit] = texture;
            }
        }
    }

    /// `glDrawArrays` and `glDrawElements`: whether they go through the
    /// fixed-function emulation.
    pub fn uses_fixed_pipeline(&self) -> (r: bool)
        ensures
            r == self.state().fixed_pipeline_active,
    {
        self.fixed_state.fixed_pipeline_active
    }

    /// `glShaderSource`: the source (the guest's pieces joined) to compile
    /// instead, or `None` to pass the guest's pieces on (see
    /// [`shader_source_patch_spec`]).
    pub fn ShaderSource(&self, joined: &str, is_fragment: bool) -> (r: Option<String>)
        ensures
            match shader_source_patch_spec(joined@, is_fragment, self.texture_lod_ext_supported) {
                Some(p) => r is Some && r->Some_0@ == p,
                None => r is None,
            },
    {
        let chars = str_chars(joined);
        let needs_precision = is_fragment && !shader_has_default_float_precision(joined);
        let needs_lod = !self.texture_lod_ext_supported && (contains_str(chars.as_slice(), "texture2DLodEXT")
            || contains_str(chars.as_slice(), "texture2DProjLodEXT") || contains_str(
            chars.as_slice(),
            "textureCubeLodEXT",
        ));
        if !(contains_str(chars.as_slice(), "#extension") || needs_lod || needs_precision) {
            return None;
        }
        let patched = patch_shader_for_native_es2(joined, self.texture_lod_ext_supported, needs_precision);
        let pc = str_chars(patched.as_str());
        if has_char(pc.as_slice(), '\0') {
            return None;
        }
        Some(patched)
    }

    /// `glCompressedTexImage2D`: whether the data is decoded here rather
    /// than handed to the driver (when the driver lacks PVRTC and there is
    /// data).
    pub fn decodes_compressed_textures(&self, has_data: bool, image_size: i32) -> (r: bool)
        ensures
            r == (!self.pvrtc_native && has_data && image_size > 0),
    {
        !self.pvrtc_native && has_data && image_size > 0
    }

    /// The paletted part of `glCompressedTexImage2D`'s software decoding:
    /// `None` where `format` is not paletted (the driver gets the data),
    /// `Some(None)` where the payload is too short (nothing is uploaded),
    /// `Some(Some(texels))` for the decoded texels to upload uncompressed.
    pub fn decode_paletted(&self, format: Option<PalettedTextureFormat>, payload: &[u8], width: usize, height: usize) -> (r: Option<
        Option<Vec<u8>>,
    >)
        requires
            format is Some ==> entry_size_spec(format->Some_0.palette_entry_format, format->Some_0.palette_entry_type) is Some,
            width * height + 2048 <= usize::MAX,
        ensures
            format is None ==> r is None,
            format is Some ==> r is Some && {
                let f = format->Some_0;
                let es = entry_size_spec(f.palette_entry_format, f.palette_entry_type)->Some_0;
                let n = (width * height) as nat;
                &&& (r->Some_0 is None <==> payload@.len() < crate::gles::paletted::paletted_size(f.index_is_nibble, es, n))
                &&& r->Some_0 is Some ==> r->Some_0->Some_0@ == crate::gles::paletted::decoded_texels(
                    payload@,
                    f.index_is_nibble,
                    es,
                    n,
                )
            },
    {
        match format {
            None => None,
            Some(f) => Some(decode_paletted_texture(payload, f, width, height)),
        }
    }

    /// `glGetTexEnviv`: the texture environment mode of the active unit,
    /// where `pname` asks for it.
    pub fn texture_env_mode(&self, pname: u32) -> (r: Option<u32>)
        requires
            pname == TEXTURE_ENV_MODE ==> unit_of(self.state().active_texture) < TEXTURE_UNITS,
        ensures
            r == if pname == TEXTURE_ENV_MODE {
                Some(self.state().texture_env_mode[unit_of(self.state().active_texture)])
            } else {
                None
            },
    {
        if pname == TEXTURE_ENV_MODE {
            let unit = unit_index(self.fixed_state.active_texture);
            Some(self.fixed_state.texture_env_mode[unit])
        } else {
            None
        }
    }

    /// `glTexEnvi`: sets the active unit's environment mode, if it is a
    /// tracked unit, and turns fixed-function emulation on.
    pub fn TexEnvi(&mut self, param: i32)
        ensures
            ({
                let unit = unit_of(old(self).fixed_state.active_texture);
                if unit < TEXTURE_UNITS {
                    &&& final(self).fixed_state.texture_env_mode@ == old(self).fixed_state.texture_env_mode@.update(
                        unit,
                        param as u32,
                    )
                    &&& *final(self).fixed_state == (GLES2FixedState {
                        texture_env_mode: final(self).fixed_state.texture_env_mode,
                        fixed_pipeline_active: true,
                        ..*old(self).fixed_state
                    })
                } else {
                    *final(self).fixed_state == *old(self).fixed_state
                }
            }),
            Self::same_support(final(self), old(self)),
    {
        let unit = unit_index(self.fixed_state.active_texture);
        if unit < TEXTURE_UNITS {
            self.fixed_state.texture_env_mode[unit] = param as u32;
            self.fixed_state.fixed_pipeline_active = true;
        }
    }

    /// `glGetPointerv`: the address of the array that `pname` names; any
    /// other name is taken as the client-active unit's texture coordinates.
    pub fn GetPointerv(&self, pname: u32) -> (p: usize)
        requires
            pname != VERTEX_ARRAY_POINTER && pname != COLOR_ARRAY_POINTER && pname != NORMAL_ARRAY_POINTER
                ==> unit_of(self.state().client_active_texture) < TEXTURE_UNITS,
        ensures
            p == if pname == VERTEX_ARRAY_POINTER {
                self.state().vertex.pointer
            } else if pname == COLOR_ARRAY_POINTER {
                self.state().color.pointer
            } else if pname == NORMAL_ARRAY_POINTER {
                self.state().normal.pointer
            } else {
                self.state().texcoord[unit_of(self.state().client_active_texture)].pointer
            },
    {
        if pname == VERTEX_ARRAY_POINTER {
            self.fixed_state.vertex.pointer
        } else if pname == COLOR_ARRAY_POINTER {
            self.fixed_state.color.pointer
        } else if pname == NORMAL_ARRAY_POINTER {
            self.fixed_state.normal.pointer
        } else {
            let unit = unit_index(self.fixed_state.client_active_texture);
            self.fixed_state.texcoord[unit].pointer
        }
    }

    /// `glMatrixMode`: only the three ES 1.1 modes are taken.
    pub fn MatrixMode(&mut self, mode: u32)
        ensures
            *final(self).fixed_state == (GLES2FixedState {
                matrix_mode: if mode == MODELVIEW || mode == PROJECTION || mode == TEXTURE {
                    mode
                } else {
                    old(self).fixed_state.matrix_mode
                },
                ..*old(self).fixed_state
            }),
            Self::same_support(final(self), old(self)),
    {
        if mode == MODELVIEW || mode == PROJECTION || mode == TEXTURE {
            self.fixed_state.matrix_mode = mode;
        }
    }

    /// The current matrix of the selected stack, as `glLoadMatrix`,
    /// `glMultMatrix` and friends read and replace it.
    pub fn current_matrix_mut(&mut self) -> (m: &mut M)
        requires
            selection_valid(old(self).fixed_state.matrix_mode, old(self).fixed_state.active_texture),
        ensures
            old(self).fixed_state.current_stack().len() >= 1,
            *m == old(self).fixed_state.current_stack().last(),
            final(self).fixed_state.current_stack() == old(self).fixed_state.current_stack().update(
                old(self).fixed_state.current_stack().len() - 1,
                *final(m),
            ),
            GLES2FixedState::same_but_stack(
                &*final(self).fixed_state,
                &*old(self).fixed_state,
                selected_stack(old(self).fixed_state.matrix_mode, old(self).fixed_state.active_texture),
            ),
            Self::same_support(final(self), old(self)),
    {
        self.fixed_state.current_matrix_mut()
    }

    /// `glPushMatrix`.
    pub fn PushMatrix(&mut self)
        requires
            selection_valid(old(self).fixed_state.matrix_mode, old(self).fixed_state.active_texture),
        ensures
            final(self).fixed_state.current_stack() == old(self).fixed_state.current_stack().push(
                old(self).fixed_state.current_stack().last(),
            ),
            GLES2FixedState::same_but_stack(
                &*final(self).fixed_state,
                &*old(self).fixed_state,
                selected_stack(old(self).fixed_state.matrix_mode, old(self).fixed_state.active_texture),
            ),
            Self::same_support(final(self), old(self)),
    {
        self.fixed_state.push_matrix();
    }

    /// `glPopMatrix`: the last matrix of a stack is never popped.
    pub fn PopMatrix(&mut self)
        requires
            selection_valid(old(self).fixed_state.matrix_mode, old(self).fixed_state.active_texture),
        ensures
            final(self).fixed_state.current_stack() == if old(self).fixed_state.current_stack().len() > 1 {
                old(self).fixed_state.current_stack().drop_last()
            } else {
                old(self).fixed_state.current_stack()
            },
            GLES2FixedState::same_but_stack(
                &*final(self).fixed_state,
                &*old(self).fixed_state,
                selected_stack(old(self).fixed_state.matrix_mode, old(self).fixed_state.active_texture),
            ),
            Self::same_support(final(self), old(self)),
    {
        self.fixed_state.pop_matrix();
    }

    /// A client array as the `gl*Pointer` calls set it: bound to the
    /// current array buffer, its enable kept.
    fn client_array(&self, size: i32, type_: u32, stride: i32, pointer: usize, enabled: bool) -> (a: FixedArrayState)
        ensures
            a == (FixedArrayState {
                size,
                type_,
                stride,
                pointer,
                buffer_binding: self.state().array_buffer,
                enabled,
            }),
    {
        FixedArrayState { size, type_, stride, pointer, buffer_binding: self.fixed_state.array_buffer, enabled }
    }

    /// `glVertexPointer`.
    pub fn VertexPointer(&mut self, size: i32, type_: u32, stride: i32, pointer: usize)
        ensures
            final(self).fixed_state.vertex == (FixedArrayState {
                size,
                type_,
                stride,
                pointer,
                buffer_binding: old(self).fixed_state.array_buffer,
                enabled: old(self).fixed_state.vertex.enabled,
            }),
            *final(self).fixed_state == (GLES2FixedState {
                vertex: final(self).fixed_state.vertex,
                fixed_pipeline_active: true,
                ..*old(self).fixed_state
            }),
            Self::same_support(final(self), old(self)),
    {
        self.fixed_state.vertex = self.client_array(size, type_, stride, pointer, self.fixed_state.vertex.enabled);
        self.fixed_state.fixed_pipeline_active = true;
    }

    /// `glColorPointer`.
    pub fn ColorPointer(&mut self, size: i32, type_: u32, stride: i32, pointer: usize)
        ensures
            final(self).fixed_state.color == (FixedArrayState {
                size,
                type_,
                stride,
                pointer,
                buffer_binding: old(self).fixed_state.array_buffer,
                enabled: old(self).fixed_state.color.enabled,
            }),
            *final(self).fixed_state == (GLES2FixedState {
                color: final(self).fixed_state.color,
                fixed_pipeline_active: true,
                ..*old(self).fixed_state
            }),
            Self::same_support(final(self), old(self)),
    {
        self.fixed_state.color = self.client_array(size, type_, stride, pointer, self.fixed_state.color.enabled);
        self.fixed_state.fixed_pipeline_active = true;
    }

    /// `glNormalPointer`: normals have three components.
    pub fn NormalPointer(&mut self, type_: u32, stride: i32, pointer: usize)
        ensures
            final(self).fixed_state.normal == (FixedArrayState {
                size: 3,
                type_,
                stride,
                pointer,
                buffer_binding: old(self).fixed_state.array_buffer,
                enabled: old(self).fixed_state.normal.enabled,
            }),
            *final(self).fixed_state == (GLES2FixedState {
                normal: final(self).fixed_state.normal,
                fixed_pipeline_active: true,
                ..*old(self).fixed_state
            }),
            Self::same_support(final(self), old(self)),
    {
        self.fixed_state.normal = self.client_array(3, type_, stride, pointer, self.fixed_state.normal.enabled);
        self.fixed_state.fixed_pipeline_active = true;
    }

    /// `glTexCoordPointer`, for the client-active unit if it is tracked.
    pub fn TexCoordPointer(&mut self, size: i32, type_: u32, stride: i32, pointer: usize)
        ensures
            ({
                let unit = unit_of(old(self).fixed_state.client_active_texture);
                if unit < TEXTURE_UNITS {
                    &&& final(self).fixed_state.texcoord@ == old(self).fixed_state.texcoord@.update(
                        unit,
                        FixedArrayState {
                            size,
                            type_,
                            stride,
                            pointer,
                            buffer_binding: old(self).fixed_state.array_buffer,
                            enabled: old(self).fixed_state.texcoord[unit].enabled,
                        },
                    )
                    &&& *final(self).fixed_state == (GLES2FixedState {
                        texcoord: final(self).fixed_state.texcoord,
                        fixed_pipeline_active: true,
                        ..*old(self).fixed_state
                    })
                } else {
                    *final(self).fixed_state == *old(self).fixed_state
                }
            }),
            Self::same_support(final(self), old(self)),
    {
        let unit = unit_index(self.fixed_state.client_active_texture);
        if unit < TEXTURE_UNITS {
            let array = self.client_array(size, type_, stride, pointer, self.fixed_state.texcoord[unit].enabled);
            self.fixed_state.texcoord[unit] = array;
            self.fixed_state.fixed_pipeline_active = true;
        }
    }
}

} // verus!
