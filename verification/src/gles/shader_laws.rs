//! What the shader rewriting promises of every source.

use vstd::prelude::*;
use crate::gles::gles2_native::{
    assemble_shader, classify_lines, dedupe_lines, drops_extension_line, has_default_float_precision, is_ident_char, join_lines,
    lemma_find_from, lemma_rewrite_shorter, lemma_scan_close, patch_shader_spec, replace_name, replace_name_from, rewrite_call,
    scan_close,
};
use crate::text::{contains, find_char_from, find_from, lemma_find_char_from, lines, matches_at, starts_with, trim};

verus! {

/// Where `p` occurs at `k`, it is found searching from any `i` up to `k`.
proof fn lemma_found_by_search(s: Seq<char>, p: Seq<char>, i: int, k: int)
    requires
        0 <= i <= k,
        matches_at(s, p, k),
    ensures
        find_from(s, p, i) is Some,
    decreases k - i,
{
    if !matches_at(s, p, i) {
        lemma_found_by_search(s, p, i + 1, k);
    }
}

/// A text occurs in `a + p + b`.
proof fn lemma_contains_middle(a: Seq<char>, p: Seq<char>, b: Seq<char>)
    ensures
        contains(a + p + b, p),
{
    let s = a + p + b;
    assert(s.subrange(a.len() as int, (a.len() + p.len()) as int) =~= p);
    lemma_found_by_search(s, p, 0, a.len() as int);
}

/// A source that declares a default float precision gets none injected:
/// asking for the injection changes nothing.
pub proof fn law_existing_precision_is_kept(source: Seq<char>, texture_lod_ext_supported: bool)
    requires
        has_default_float_precision(source),
    ensures
        patch_shader_spec(source, texture_lod_ext_supported, true) == patch_shader_spec(
            source,
            texture_lod_ext_supported,
            false,
        ),
{
}

/// A source without a default float precision gets
/// `precision mediump float;` when it is asked for (with the
/// `texture*LodEXT` functions available, which leaves the rest as is).
pub proof fn law_missing_precision_is_injected(source: Seq<char>)
    requires
        !has_default_float_precision(source),
    ensures
        contains(patch_shader_spec(source, true, true), "precision mediump float;"@),
{
    let parts = classify_lines(lines(source), true);
    let head = (match parts.0 {
        Some(v) => v + seq!['\n'],
        None => Seq::empty(),
    }) + join_lines(parts.1);
    let p = "precision mediump float;"@;
    let rest = seq!['\n'] + join_lines(dedupe_lines(parts.2).0);
    reveal_strlit("precision mediump float;\n");
    reveal_strlit("precision mediump float;");
    assert(assemble_shader((parts.0, parts.1, dedupe_lines(parts.2).0), true) =~= head + p + rest);
    lemma_contains_middle(head, p, rest);
}

/// Without the injection asked for, the source's lines come out in the
/// same three groups as with it, and no line is added.
pub proof fn law_no_injection_unless_asked(source: Seq<char>)
    ensures
        ({
            let parts = classify_lines(lines(source), true);
            patch_shader_spec(source, true, false) == (match parts.0 {
                Some(v) => v + seq!['\n'],
                None => Seq::empty(),
            }) + join_lines(parts.1) + join_lines(dedupe_lines(parts.2).0)
        }),
{
    let parts = classify_lines(lines(source), true);
    assert(assemble_shader((parts.0, parts.1, dedupe_lines(parts.2).0), false) =~= (match parts.0 {
        Some(v) => v + seq!['\n'],
        None => Seq::empty(),
    }) + join_lines(parts.1) + join_lines(dedupe_lines(parts.2).0));
}

/// Whether a line is an `#extension` directive that the rewriting keeps.
pub open spec fn kept_extension(line: Seq<char>, texture_lod_ext_supported: bool) -> bool {
    starts_with(trim(line), "#extension"@) && !drops_extension_line(trim(line), texture_lod_ext_supported)
}

/// A `#version` line is no `#extension` line.
proof fn lemma_version_not_extension(t: Seq<char>)
    requires
        starts_with(t, "#version"@),
    ensures
        !starts_with(t, "#extension"@),
{
    reveal_strlit("#version");
    reveal_strlit("#extension");
    if starts_with(t, "#extension"@) {
        assert(t.subrange(0, 8)[1] == t[1]);
        assert(t.subrange(0, 10)[1] == t[1]);
    }
}

/// The hoisted `#extension` lines are exactly the kept ones of the source,
/// in the source's order.
pub proof fn law_extensions_keep_their_order(ls: Seq<Seq<char>>, texture_lod_ext_supported: bool)
    ensures
        classify_lines(ls, texture_lod_ext_supported).1 == ls.filter(|l: Seq<char>| kept_extension(l, texture_lod_ext_supported)),
    decreases ls.len(),
{
    reveal(Seq::filter);
    if ls.len() > 0 {
        law_extensions_keep_their_order(ls.drop_last(), texture_lod_ext_supported);
        let t = trim(ls.last());
        if starts_with(t, "#version"@) {
            lemma_version_not_extension(t);
        }
    }
}

/// Every `#extension` line that does not name `GL_EXT_shader_texture_lod`
/// is kept among the hoisted lines, whether or not the driver has the
/// `texture*LodEXT` functions; a line naming it is kept too where the driver
/// has them. Every hoisted line is an `#extension` line, and none names
/// `GL_EXT_shader_texture_lod` where the driver lacks it.
pub proof fn law_only_the_lod_extension_line_is_dropped(ls: Seq<Seq<char>>, texture_lod_ext_supported: bool)
    ensures
        forall|i: int|
            0 <= i < ls.len() && starts_with(trim(#[trigger] ls[i]), "#extension"@) && (texture_lod_ext_supported
                || !contains(trim(ls[i]), "GL_EXT_shader_texture_lod"@)) ==> classify_lines(
                ls,
                texture_lod_ext_supported,
            ).1.contains(ls[i]),
        forall|j: int|
            0 <= j < classify_lines(ls, texture_lod_ext_supported).1.len() ==> {
                let t = trim(#[trigger] classify_lines(ls, texture_lod_ext_supported).1[j]);
                &&& starts_with(t, "#extension"@)
                &&& !texture_lod_ext_supported ==> !contains(t, "GL_EXT_shader_texture_lod"@)
            },
{
    let f = |l: Seq<char>| kept_extension(l, texture_lod_ext_supported);
    law_extensions_keep_their_order(ls, texture_lod_ext_supported);
    assert forall|i: int|
        0 <= i < ls.len() && starts_with(trim(#[trigger] ls[i]), "#extension"@) && (texture_lod_ext_supported
            || !contains(trim(ls[i]), "GL_EXT_shader_texture_lod"@)) implies classify_lines(
            ls,
            texture_lod_ext_supported,
        ).1.contains(ls[i]) by {
        assert(f(ls[i]));
        ls.lemma_filter_contains(f, i);
    }
    assert forall|j: int| 0 <= j < classify_lines(ls, texture_lod_ext_supported).1.len() implies {
        let t = trim(#[trigger] classify_lines(ls, texture_lod_ext_supported).1[j]);
        &&& starts_with(t, "#extension"@)
        &&& !texture_lod_ext_supported ==> !contains(t, "GL_EXT_shader_texture_lod"@)
    } by {
        ls.lemma_filter_pred(f, j);
    }
}

/// Whether `name` occurs at `k` in `s` as a whole identifier.
pub open spec fn standalone_at(s: Seq<char>, name: Seq<char>, k: int) -> bool {
    &&& matches_at(s, name, k)
    &&& k == 0 || !is_ident_char(s[k - 1])
    &&& k + name.len() >= s.len() || !is_ident_char(s[k + name.len()])
}

/// Whether a parenthesised argument list that closes follows the
/// occurrence of `name` at `k`: a `(` somewhere after it, and the `)` that
/// closes it.
pub open spec fn call_closes_at(s: Seq<char>, name: Seq<char>, k: int) -> bool {
    match find_char_from(s, '(', k + name.len()) {
        Some(paren) => scan_close(s, paren, 0, None).0 is Some,
        None => false,
    }
}

/// Whether every whole-identifier occurrence of `name` in `s` that is
/// followed by a closed argument list comes after one that is not.
pub open spec fn no_call_left_before_an_open_one(s: Seq<char>, name: Seq<char>) -> bool {
    forall|k: int|
        #![trigger standalone_at(s, name, k)]
        standalone_at(s, name, k) && call_closes_at(s, name, k) ==> exists|j: int|
            #![trigger standalone_at(s, name, j)]
            0 <= j < k && standalone_at(s, name, j) && !call_closes_at(s, name, j)
}

/// Where the search from `i` finds nothing, `p` occurs nowhere from `i` on;
/// where it finds `k`, `p` occurs nowhere in `[i, k)`.
proof fn lemma_search_skips_nothing(s: Seq<char>, p: Seq<char>, i: int)
    requires
        0 <= i,
    ensures
        match find_from(s, p, i) {
            Some(k) => forall|j: int| i <= j < k ==> !#[trigger] matches_at(s, p, j),
            None => forall|j: int| i <= j ==> !#[trigger] matches_at(s, p, j),
        },
    decreases s.len() + 1 - i,
{
    if !(i + p.len() > s.len()) && !matches_at(s, p, i) {
        lemma_search_skips_nothing(s, p, i + 1);
    }
}

proof fn lemma_replace_name_from(s: Seq<char>, old: Seq<char>, new: Seq<char>, from: int)
    requires
        new.len() < old.len(),
        0 <= from,
        forall|k: int| 0 <= k < from ==> !#[trigger] standalone_at(s, old, k),
    ensures
        no_call_left_before_an_open_one(replace_name_from(s, old, new, from), old),
    decreases s.len(), s.len() - from,
{
    lemma_search_skips_nothing(s, old, from);
    lemma_find_from(s, old, from);
    match find_from(s, old, from) {
        None => {},
        Some(start) => {
            let end = start + old.len();
            if !(start == 0 || !is_ident_char(s[start - 1])) || !(end >= s.len() || !is_ident_char(s[end])) {
                assert forall|k: int| 0 <= k < start + 1 implies !#[trigger] standalone_at(s, old, k) by {
                    if from <= k < start {
                        assert(!matches_at(s, old, k));
                    }
                }
                lemma_replace_name_from(s, old, new, start + 1);
            } else {
                assert(standalone_at(s, old, start));
                match find_char_from(s, '(', end) {
                    None => {
                        assert(!call_closes_at(s, old, start));
                        assert forall|k: int|
                            #![trigger standalone_at(s, old, k)]
                            standalone_at(s, old, k) && call_closes_at(s, old, k) implies exists|j: int|
                            #![trigger standalone_at(s, old, j)]
                            0 <= j < k && standalone_at(s, old, j) && !call_closes_at(s, old, j) by {
                            if k < start {
                                assert(!matches_at(s, old, k));
                            }
                        }
                    },
                    Some(paren) => match scan_close(s, paren, 0, None) {
                        (None, _) => {
                            assert(!call_closes_at(s, old, start));
                            assert forall|k: int|
                                #![trigger standalone_at(s, old, k)]
                                standalone_at(s, old, k) && call_closes_at(s, old, k) implies exists|j: int|
                                #![trigger standalone_at(s, old, j)]
                                0 <= j < k && standalone_at(s, old, j) && !call_closes_at(s, old, j) by {
                                if k < start {
                                    assert(!matches_at(s, old, k));
                                }
                            }
                        },
                        (Some(close), comma) => {
                            lemma_find_char_from(s, '(', end);
                            lemma_scan_close(s, paren + 1, 1, None);
                            lemma_rewrite_shorter(s, start, end, new, paren, close, comma);
                            lemma_replace_name_from(rewrite_call(s, start, end, new, paren, close, comma), old, new, 0);
                        },
                    },
                }
            }
        },
    }
}

/// The rewriting of `old` calls to `new` leaves no call behind unless the
/// search stopped early: in the result, every whole-identifier occurrence
/// of `old` that a closed argument list follows comes after an occurrence
/// that none follows (the one the rewriting stopped at). In particular, the
/// first whole-identifier occurrence of `old` left in the result, if any,
/// has no closed argument list after it.
pub proof fn law_every_call_is_rewritten(s: Seq<char>, old: Seq<char>, new: Seq<char>)
    requires
        new.len() < old.len(),
    ensures
        no_call_left_before_an_open_one(replace_name(s, old, new), old),
{
    lemma_replace_name_from(s, old, new, 0);
}

} // verus!
