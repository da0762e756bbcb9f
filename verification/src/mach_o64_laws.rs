//! What loading promises of rebasing, of the exports, and of loading one
//! image at two slides.

use vstd::prelude::*;
use crate::a64_runtime::write_state;
use crate::mach_o64::{
    bind_spec, command_spec, commands_spec, export_index, exports_of, initial_progress,
    bytes_spec, fat_slice_triple, first_arm64, image_spec, insert_export, load_spec, moved_value, parsed_object, slice_range_spec,
    load_matches, FatSliceView, MachO64, ObjectView, names_unique, rebase_spec, segment_spec, symbol_table_read, CommandView, LoadProgress,
};
use crate::mem64::{access_error, lemma_region_index_at, read_spec, read_value_spec, regions_wf, write_bytes_spec, write_spec};

verus! {

/// Writing back the bytes memory holds changes nothing.
proof fn lemma_write_back(rs: Seq<(u64, Seq<u8>)>, addr: int, n: int)
    requires
        regions_wf(rs),
        0 <= n,
        access_error(rs, addr, n) is None,
    ensures
        write_spec(rs, addr, read_spec(rs, addr, n)) == rs,
{
    lemma_region_index_at(rs, addr);
    let i = crate::mem64::region_index_at(rs, addr);
    let b = rs[i].1;
    let off = addr - rs[i].0;
    assert(b.subrange(0, off) + b.subrange(off, off + n) + b.subrange(off + n, b.len() as int) =~= b);
    assert(rs.update(i, (rs[i].0, b)) =~= rs);
}

/// Loading at slide 0 leaves every rebased pointer as the file has it:
/// rebasing changes no memory.
pub proof fn law_zero_slide_rebase_changes_nothing(p: LoadProgress, recs: Seq<(bool, usize, isize)>, i: int)
    requires
        regions_wf(p.mem.0),
    ensures
        rebase_spec(p, recs, 0, i) is Ok ==> rebase_spec(p, recs, 0, i)->Ok_0 == p,
    decreases recs.len() - i,
{
    if 0 <= i < recs.len() {
        let (pointer, segment, offset) = recs[i];
        if !pointer {
            law_zero_slide_rebase_changes_nothing(p, recs, i + 1);
        } else if segment < p.bases.len() && p.bases[segment as int] + (offset as u64) <= u64::MAX {
            let address = (p.bases[segment as int] + (offset as u64)) as u64;
            if access_error(p.mem.0, address as int, 8) is None {
                let bytes = read_spec(p.mem.0, address as int, 8);
                lemma_region_index_at(p.mem.0, address as int);
                assert(bytes.len() == 8);
                vstd::bytes::lemma_auto_spec_u64_to_from_le_bytes();
                let value = vstd::bytes::spec_u64_from_le_bytes(bytes);
                assert(read_value_spec(p.mem.0, address, 8, |b: Seq<u8>| vstd::bytes::spec_u64_from_le_bytes(b)) == Ok::<
                    u64,
                    Seq<char>,
                >(value));
                assert(vstd::bytes::spec_u64_to_le_bytes(value) == bytes);
                lemma_write_back(p.mem.0, address as int, 8);
                assert(write_bytes_spec(p.mem.0, address, bytes) == Ok::<Seq<(u64, Seq<u8>)>, Seq<char>>(p.mem.0));
                assert(write_state(p.mem, address, bytes) == Ok::<crate::a64_runtime::MemState, Seq<char>>(p.mem));
                assert(LoadProgress { mem: p.mem, ..p } == p);
                law_zero_slide_rebase_changes_nothing(p, recs, i + 1);
            }
        }
    }
}

/// Binding a name among exports of distinct names keeps the names
/// distinct, gives the name the new value and keeps every entry of another
/// name.
proof fn lemma_insert_export(ex: Seq<(Seq<char>, u64)>, name: Seq<char>, value: u64)
    requires
        names_unique(ex),
    ensures
        names_unique(insert_export(ex, name, value)),
        insert_export(ex, name, value).contains((name, value)),
        forall|e: (Seq<char>, u64)| ex.contains(e) && e.0 != name ==> insert_export(ex, name, value).contains(e),
{
    let ins = insert_export(ex, name, value);
    match export_index(ex, name) {
        Some(i) => {
            assert(0 <= i < ex.len() && ex[i].0 == name);
            assert(ins[i] == (name, value));
            assert forall|a: int, b: int| 0 <= a < ins.len() && 0 <= b < ins.len() && a != b implies #[trigger] ins[a].0 != #[trigger] ins[b].0 by {
                if a != i && b != i {
                    assert(ex[a].0 != ex[b].0);
                } else if a == i {
                    assert(ex[b].0 != ex[i].0);
                } else {
                    assert(ex[a].0 != ex[i].0);
                }
            }
            assert forall|e: (Seq<char>, u64)| ex.contains(e) && e.0 != name implies ins.contains(e) by {
                let k = choose|k: int| 0 <= k < ex.len() && ex[k] == e;
                assert(k != i);
                assert(ins[k] == e);
            }
        },
        None => {
            assert(ins[ex.len() as int] == (name, value));
            assert forall|a: int, b: int| 0 <= a < ins.len() && 0 <= b < ins.len() && a != b implies #[trigger] ins[a].0 != #[trigger] ins[b].0 by {
                if a < ex.len() && b < ex.len() {
                    assert(ex[a].0 != ex[b].0);
                } else if a < ex.len() {
                    assert(!(0 <= a < ex.len() && ex[a].0 == name));
                } else {
                    assert(!(0 <= b < ex.len() && ex[b].0 == name));
                }
            }
            assert forall|e: (Seq<char>, u64)| ex.contains(e) && e.0 != name implies ins.contains(e) by {
                let k = choose|k: int| 0 <= k < ex.len() && ex[k] == e;
                assert(ins[k] == e);
            }
        },
    }
}

/// No name occurs twice among the exports.
pub proof fn law_exports_unique(syms: Seq<(bool, Option<Seq<char>>, usize)>, slide: u64, n: int)
    ensures
        names_unique(exports_of(syms, slide, n)),
    decreases n,
{
    if n > 0 {
        law_exports_unique(syms, slide, n - 1);
        let s = syms[n - 1];
        if s.0 && s.1 is Some {
            lemma_insert_export(exports_of(syms, slide, n - 1), s.1->Some_0, moved_value(s.2, slide));
        }
    }
}

/// A name that symbols define is exported with the value of the last
/// symbol that defines it: a later symbol of the same name replaces an
/// earlier one.
pub proof fn law_exports_last_wins(syms: Seq<(bool, Option<Seq<char>>, usize)>, slide: u64, n: int, k: int)
    requires
        0 <= k < n <= syms.len(),
        syms[k].0,
        syms[k].1 is Some,
        forall|j: int| k < j < n ==> !(#[trigger] syms[j].0 && syms[j].1 == syms[k].1),
    ensures
        exports_of(syms, slide, n).contains((syms[k].1->Some_0, moved_value(syms[k].2, slide))),
    decreases n,
{
    law_exports_unique(syms, slide, n - 1);
    let s = syms[n - 1];
    if n - 1 == k {
        lemma_insert_export(exports_of(syms, slide, n - 1), s.1->Some_0, moved_value(s.2, slide));
    } else {
        law_exports_last_wins(syms, slide, n - 1, k);
        assert(!(syms[n - 1].0 && syms[n - 1].1 == syms[k].1));
        if s.0 && s.1 is Some {
            lemma_insert_export(exports_of(syms, slide, n - 1), s.1->Some_0, moved_value(s.2, slide));
        }
    }
}

/// The exports with every value moved by `slide` (wrapping).
pub open spec fn slid_exports(ex: Seq<(Seq<char>, u64)>, slide: u64) -> Seq<(Seq<char>, u64)> {
    ex.map_values(|e: (Seq<char>, u64)| (e.0, vstd::wrapping::u64_specs::wrapping_add(e.1, slide)))
}

/// Binding a name among distinctly named exports and then moving every
/// value is moving every value and then binding the name to the moved
/// value.
proof fn lemma_insert_then_slide(ex: Seq<(Seq<char>, u64)>, name: Seq<char>, value: u64, slide: u64)
    requires
        names_unique(ex),
    ensures
        slid_exports(insert_export(ex, name, value), slide) == insert_export(
            slid_exports(ex, slide),
            name,
            vstd::wrapping::u64_specs::wrapping_add(value, slide),
        ),
{
    let moved = slid_exports(ex, slide);
    let v = vstd::wrapping::u64_specs::wrapping_add(value, slide);
    match export_index(ex, name) {
        Some(i) => {
            assert(0 <= i < ex.len() && ex[i].0 == name);
            assert(moved[i].0 == name);
            let c = choose|k: int| 0 <= k < moved.len() && moved[k].0 == name;
            assert(c == i) by {
                if c != i {
                    assert(ex[c].0 == moved[c].0);
                    assert(ex[c].0 != ex[i].0);
                }
            }
            assert(export_index(moved, name) == Some(i));
            assert(slid_exports(ex.update(i, (name, value)), slide) =~= moved.update(i, (name, v)));
        },
        None => {
            assert forall|k: int| !(0 <= k < moved.len() && moved[k].0 == name) by {
                if 0 <= k < moved.len() {
                    assert(moved[k].0 == ex[k].0);
                }
            }
            assert(export_index(moved, name) is None);
            assert(slid_exports(ex.push((name, value)), slide) =~= moved.push((name, v)));
        },
    }
}

/// Loading at another slide moves every export's value by that slide and
/// changes nothing else of the exports: the exports the symbols give at
/// `slide` are those they give at 0, each value moved by `slide`.
pub proof fn law_exports_move_with_slide(syms: Seq<(bool, Option<Seq<char>>, usize)>, slide: u64, n: int)
    ensures
        exports_of(syms, slide, n) == slid_exports(exports_of(syms, 0, n), slide),
    decreases n,
{
    if n <= 0 {
        assert(slid_exports(Seq::<(Seq<char>, u64)>::empty(), slide) =~= Seq::<(Seq<char>, u64)>::empty());
    } else {
        law_exports_move_with_slide(syms, slide, n - 1);
        let s = syms[n - 1];
        if s.0 && s.1 is Some {
            law_exports_unique(syms, 0, n - 1);
            lemma_insert_then_slide(exports_of(syms, 0, n - 1), s.1->Some_0, moved_value(s.2, 0), slide);
            assert(moved_value(s.2, 0) == s.2 as u64);
            assert(vstd::wrapping::u64_specs::wrapping_add(moved_value(s.2, 0), slide) == moved_value(s.2, slide));
        }
    }
}

/// `ps` is what loading at `slide` has gathered where loading at 0
/// gathered `p0`: the same libraries, symbol table and `LC_MAIN` offset;
/// every segment base, binding address, the text base, the thread entry
/// point and (once there is a segment) the image's end moved by `slide`.
/// Memory is left aside.
pub open spec fn slid_progress(p0: LoadProgress, ps: LoadProgress, slide: u64) -> bool {
    &&& ps.dylibs == p0.dylibs
    &&& ps.symtab == p0.symtab
    &&& ps.entry_off == p0.entry_off
    &&& ps.bases.len() == p0.bases.len()
    &&& forall|i: int| 0 <= i < p0.bases.len() ==> #[trigger] ps.bases[i] == p0.bases[i] + slide
    &&& ps.bindings.len() == p0.bindings.len()
    &&& forall|i: int|
        0 <= i < p0.bindings.len() ==> #[trigger] ps.bindings[i].1 == p0.bindings[i].1 && ps.bindings[i].0 == p0.bindings[i].0
            + slide
    &&& match (p0.text_base, ps.text_base) {
        (None, None) => true,
        (Some(t0), Some(ts)) => ts == t0 + slide,
        _ => false,
    }
    &&& match (p0.entry_pc, ps.entry_pc) {
        (None, None) => true,
        (Some(e0), Some(es)) => es == e0 + slide,
        _ => false,
    }
    &&& if p0.bases.len() == 0 {
        p0.last_end == 0 && ps.last_end == 0
    } else {
        ps.last_end == p0.last_end + slide
    }
}

/// Recording binds keeps two loads related when both succeed.
proof fn lemma_bind_slides(
    p0: LoadProgress,
    ps: LoadProgress,
    recs: Seq<(bool, usize, isize, Seq<char>)>,
    bad: Seq<char>,
    overflow: Seq<char>,
    i: int,
    slide: u64,
)
    requires
        slid_progress(p0, ps, slide),
        bind_spec(p0, recs, bad, overflow, i) is Ok,
        bind_spec(ps, recs, bad, overflow, i) is Ok,
    ensures
        slid_progress(bind_spec(p0, recs, bad, overflow, i)->Ok_0, bind_spec(ps, recs, bad, overflow, i)->Ok_0, slide),
    decreases recs.len() - i,
{
    if 0 <= i < recs.len() {
        let (pointer, segment, offset, name) = recs[i];
        if !pointer {
            lemma_bind_slides(p0, ps, recs, bad, overflow, i + 1, slide);
        } else {
            let a0 = (p0.bases[segment as int] + (offset as u64)) as u64;
            let as_ = (ps.bases[segment as int] + (offset as u64)) as u64;
            let q0 = LoadProgress { bindings: p0.bindings.push((a0, name)), ..p0 };
            let qs = LoadProgress { bindings: ps.bindings.push((as_, name)), ..ps };
            assert(slid_progress(q0, qs, slide)) by {
                assert forall|k: int| 0 <= k < q0.bindings.len() implies #[trigger] qs.bindings[k].1 == q0.bindings[k].1
                    && qs.bindings[k].0 == q0.bindings[k].0 + slide by {
                    if k < p0.bindings.len() {
                        assert(q0.bindings[k] == p0.bindings[k]);
                        assert(qs.bindings[k] == ps.bindings[k]);
                    }
                }
            }
            lemma_bind_slides(q0, qs, recs, bad, overflow, i + 1, slide);
        }
    }
}

/// Rebasing changes nothing but memory.
proof fn lemma_rebase_only_memory(p: LoadProgress, recs: Seq<(bool, usize, isize)>, slide: u64, i: int)
    requires
        rebase_spec(p, recs, slide, i) is Ok,
    ensures
        rebase_spec(p, recs, slide, i)->Ok_0 == (LoadProgress { mem: rebase_spec(p, recs, slide, i)->Ok_0.mem, ..p }),
    decreases recs.len() - i,
{
    if 0 <= i < recs.len() {
        let (pointer, segment, offset) = recs[i];
        if !pointer {
            lemma_rebase_only_memory(p, recs, slide, i + 1);
        } else {
            let address = (p.bases[segment as int] + (offset as u64)) as u64;
            let value = read_value_spec(p.mem.0, address, 8, |b: Seq<u8>| vstd::bytes::spec_u64_from_le_bytes(b))->Ok_0;
            let m = write_state(p.mem, address, vstd::bytes::spec_u64_to_le_bytes((value + slide) as u64))->Ok_0;
            lemma_rebase_only_memory(LoadProgress { mem: m, ..p }, recs, slide, i + 1);
        }
    }
}

/// What loading a segment does besides memory: its slid base recorded,
/// the image's end raised to its end, and (unless it is `__PAGEZERO`) the
/// text base set by `__TEXT`.
proof fn lemma_segment_shape(image: Seq<u8>, p: LoadProgress, seg: crate::mach_o64::SegmentView, slide: u64)
    requires
        segment_spec(image, p, seg, slide) is Ok,
    ensures
        ({
            let q = segment_spec(image, p, seg, slide)->Ok_0;
            let base = (seg.vmaddr + slide) as u64;
            let end = (base + seg.vmsize) as u64;
            &&& seg.vmaddr + slide <= u64::MAX
            &&& seg.vmaddr + slide + seg.vmsize <= u64::MAX
            &&& q == (LoadProgress {
                mem: q.mem,
                bases: p.bases.push(base),
                last_end: if end > p.last_end { end } else { p.last_end },
                text_base: if seg.segname != "__PAGEZERO"@ && seg.segname == "__TEXT"@ { Some(base) } else { p.text_base },
                ..p
            })
        }),
{
}

/// One load command keeps two loads related when both succeed.
proof fn lemma_command_slides(image: Seq<u8>, p0: LoadProgress, ps: LoadProgress, c: CommandView, slide: u64)
    requires
        slid_progress(p0, ps, slide),
        command_spec(image, p0, c, 0) is Ok,
        command_spec(image, ps, c, slide) is Ok,
    ensures
        slid_progress(command_spec(image, p0, c, 0)->Ok_0, command_spec(image, ps, c, slide)->Ok_0, slide),
{
    match c {
        CommandView::Segment(seg) => {
            let q0 = segment_spec(image, p0, seg, 0)->Ok_0;
            let qs = segment_spec(image, ps, seg, slide)->Ok_0;
            let base0 = (seg.vmaddr + 0) as u64;
            let bases = (seg.vmaddr + slide) as u64;
            let end0 = (base0 + seg.vmsize) as u64;
            let ends = (bases + seg.vmsize) as u64;
            lemma_segment_shape(image, p0, seg, 0);
            lemma_segment_shape(image, ps, seg, slide);
            assert(q0.bases.len() == p0.bases.len() + 1);
            assert forall|i: int| 0 <= i < q0.bases.len() implies #[trigger] qs.bases[i] == q0.bases[i] + slide by {
                if i < p0.bases.len() {
                    assert(q0.bases[i] == p0.bases[i]);
                    assert(qs.bases[i] == ps.bases[i]);
                }
            }
            assert(bases == base0 + slide);
            assert(ends == end0 + slide);
            assert(q0.bases.len() != 0);
            assert(qs.last_end == q0.last_end + slide);
            assert(match (q0.text_base, qs.text_base) {
                (None, None) => true,
                (Some(t0), Some(ts)) => ts == t0 + slide,
                _ => false,
            });
            assert(qs.dylibs == q0.dylibs);
            assert(qs.bindings == ps.bindings && q0.bindings == p0.bindings);
            assert(qs.entry_pc == ps.entry_pc && q0.entry_pc == p0.entry_pc);
            assert(qs.symtab == q0.symtab && qs.entry_off == q0.entry_off);
            assert(slid_progress(q0, qs, slide));
            assert(command_spec(image, p0, c, 0) == segment_spec(image, p0, seg, 0));
            assert(command_spec(image, ps, c, slide) == segment_spec(image, ps, seg, slide));
        },
        CommandView::DyldInfo(d) => {
            let r0 = crate::mach_o64::command_bytes_spec(image, d.rebase_off, d.rebase_size)->Ok_0;
            let recs = crate::mach_o64::rebase_stream(r0)->Ok_0;
            lemma_rebase_only_memory(p0, recs, 0, 0);
            lemma_rebase_only_memory(ps, recs, slide, 0);
            let a0 = rebase_spec(p0, recs, 0, 0)->Ok_0;
            let as_ = rebase_spec(ps, recs, slide, 0)->Ok_0;
            assert(a0 == (LoadProgress { mem: a0.mem, ..p0 }));
            assert(as_ == (LoadProgress { mem: as_.mem, ..ps }));
            assert(slid_progress(a0, as_, slide));
            let brecs = crate::mach_o64::bind_range_spec(image, d.bind_off, d.bind_size, crate::mach_scan::BindKind::Bind)->Ok_0;
            lemma_bind_slides(a0, as_, brecs, crate::mach_o64::BIND_BAD_SEGMENT@, crate::mach_o64::BIND_ADDRESS_OVERFLOWS@, 0, slide);
            let c0 = bind_spec(a0, brecs, crate::mach_o64::BIND_BAD_SEGMENT@, crate::mach_o64::BIND_ADDRESS_OVERFLOWS@, 0)->Ok_0;
            let cs = bind_spec(as_, brecs, crate::mach_o64::BIND_BAD_SEGMENT@, crate::mach_o64::BIND_ADDRESS_OVERFLOWS@, 0)->Ok_0;
            let wrecs = crate::mach_o64::bind_range_spec(
                image,
                d.weak_bind_off,
                d.weak_bind_size,
                crate::mach_scan::BindKind::Weak,
            )->Ok_0;
            lemma_bind_slides(
                c0,
                cs,
                wrecs,
                crate::mach_o64::WEAK_BIND_BAD_SEGMENT@,
                crate::mach_o64::WEAK_BIND_ADDRESS_OVERFLOWS@,
                0,
                slide,
            );
            let e0 = bind_spec(c0, wrecs, crate::mach_o64::WEAK_BIND_BAD_SEGMENT@, crate::mach_o64::WEAK_BIND_ADDRESS_OVERFLOWS@, 0)->Ok_0;
            let es = bind_spec(cs, wrecs, crate::mach_o64::WEAK_BIND_BAD_SEGMENT@, crate::mach_o64::WEAK_BIND_ADDRESS_OVERFLOWS@, 0)->Ok_0;
            let lrecs = crate::mach_o64::bind_range_spec(
                image,
                d.lazy_bind_off,
                d.lazy_bind_size,
                crate::mach_scan::BindKind::Lazy,
            )->Ok_0;
            lemma_bind_slides(
                e0,
                es,
                lrecs,
                crate::mach_o64::LAZY_BIND_BAD_SEGMENT@,
                crate::mach_o64::LAZY_BIND_ADDRESS_OVERFLOWS@,
                0,
                slide,
            );
        },
        CommandView::ThreadPc(pc) => {
            assert(command_spec(image, p0, c, 0)->Ok_0.entry_pc == Some(pc));
        },
        CommandView::LoadDylib(path) => {
            assert(command_spec(image, p0, c, 0)->Ok_0.dylibs == p0.dylibs.push(path));
        },
        _ => {},
    }
}

/// The load commands `cmds[i..]` keep two loads related when both succeed.
proof fn lemma_commands_slide(image: Seq<u8>, cmds: Seq<CommandView>, slide: u64, i: int, p0: LoadProgress, ps: LoadProgress)
    requires
        slid_progress(p0, ps, slide),
        commands_spec(image, cmds, 0, i, p0) is Ok,
        commands_spec(image, cmds, slide, i, ps) is Ok,
    ensures
        slid_progress(commands_spec(image, cmds, 0, i, p0)->Ok_0, commands_spec(image, cmds, slide, i, ps)->Ok_0, slide),
    decreases cmds.len() - i,
{
    if 0 <= i < cmds.len() {
        lemma_command_slides(image, p0, ps, cmds[i], slide);
        lemma_commands_slide(
            image,
            cmds,
            slide,
            i + 1,
            command_spec(image, p0, cmds[i], 0)->Ok_0,
            command_spec(image, ps, cmds[i], slide)->Ok_0,
        );
    }
}

/// Loading one image at two slides, where both loads succeed: the same
/// libraries, symbol table and exported names; the segment bases, the
/// binding addresses, the text base, the entry point, the image's end
/// (once there is a segment) and every export's value moved by the slide.
pub proof fn law_load_moves_with_slide(image: Seq<u8>, cmds: Seq<CommandView>, slide: u64)
    requires
        load_spec(image, cmds, 0) is Ok,
        load_spec(image, cmds, slide) is Ok,
    ensures
        ({
            let (p0, entry0, exports0) = load_spec(image, cmds, 0)->Ok_0;
            let (ps, entrys, exportss) = load_spec(image, cmds, slide)->Ok_0;
            &&& slid_progress(p0, ps, slide)
            &&& match (entry0, entrys) {
                (None, None) => true,
                (Some(e0), Some(es)) => es == e0 + slide,
                _ => false,
            }
            &&& exportss == slid_exports(exports0, slide)
        }),
{
    let i0 = initial_progress();
    assert(slid_progress(i0, i0, slide));
    lemma_commands_slide(image, cmds, slide, 0, i0, i0);
    let p0 = commands_spec(image, cmds, 0, 0, i0)->Ok_0;
    let ps = commands_spec(image, cmds, slide, 0, i0)->Ok_0;
    match p0.symtab {
        None => {
            assert(slid_exports(Seq::<(Seq<char>, u64)>::empty(), slide) =~= Seq::<(Seq<char>, u64)>::empty());
        },
        Some(t) => {
            let syms = symbol_table_read(image, t)->Some_0;
            law_exports_move_with_slide(syms, slide, syms.len() as int);
        },
    }
}

/// Loading the bytes of a file at two slides, where both loads succeed:
/// the same image and load commands are loaded, so the two results relate
/// as [`law_load_moves_with_slide`] says.
pub proof fn law_file_load_moves_with_slide(bytes: Seq<u8>, slide: u64)
    requires
        bytes_spec(bytes, 0) is Ok,
        bytes_spec(bytes, slide) is Ok,
    ensures
        ({
            let (p0, entry0, exports0) = bytes_spec(bytes, 0)->Ok_0;
            let (ps, entrys, exportss) = bytes_spec(bytes, slide)->Ok_0;
            &&& slid_progress(p0, ps, slide)
            &&& match (entry0, entrys) {
                (None, None) => true,
                (Some(e0), Some(es)) => es == e0 + slide,
                _ => false,
            }
            &&& exportss == slid_exports(exports0, slide)
        }),
{
    reveal(image_spec);
    let obj = parsed_object(bytes, crate::mach_o64::host_little_endian())->Ok_0;
    match obj {
        ObjectView::Mach(m) => {
            law_load_moves_with_slide(bytes, m.commands, slide);
        },
        ObjectView::Fat(slices) => {
            let i = first_arm64(slices.map_values(|s: FatSliceView| fat_slice_triple(s)))->Some_0;
            let (start, end) = slice_range_spec(bytes.len(), fat_slice_triple(slices[i]))->Ok_0;
            let m = slices[i].file->Some_0;
            law_load_moves_with_slide(bytes.subrange(start, end), m.commands, slide);
        },
        ObjectView::Other => {},
    }
}

/// Two executables loaded from the same bytes under the same name, at
/// slide 0 and at `slide`: the same libraries; the entry point, every
/// binding address and every export's value moved by the slide, the
/// bindings' symbols the same; the text base and the image's end moved by
/// the slide, or both 0 where there is no `__TEXT` or no segment.
pub proof fn law_loaded_executables_move_with_slide(bytes: Seq<u8>, name: Seq<char>, slide: u64, m0: MachO64, ms: MachO64)
    requires
        load_matches(Ok(m0), name, bytes_spec(bytes, 0)),
        load_matches(Ok(ms), name, bytes_spec(bytes, slide)),
    ensures
        ms.dynamic_libraries.deep_view() == m0.dynamic_libraries.deep_view(),
        match (m0.entry_point_pc, ms.entry_point_pc) {
            (None, None) => true,
            (Some(e0), Some(es)) => es == e0 + slide,
            _ => false,
        },
        ms.bindings@.len() == m0.bindings@.len(),
        forall|i: int|
            0 <= i < m0.bindings@.len() ==> #[trigger] ms.bindings@[i].address == m0.bindings@[i].address + slide
                && ms.bindings@[i].symbol@ == m0.bindings@[i].symbol@,
        ms.exported_symbols.deep_view() == slid_exports(m0.exported_symbols.deep_view(), slide),
        ms.text_base == m0.text_base + slide || (ms.text_base == 0 && m0.text_base == 0),
        ms.last_segment_end == m0.last_segment_end + slide || (ms.last_segment_end == 0 && m0.last_segment_end == 0),
{
    reveal(load_matches);
    law_file_load_moves_with_slide(bytes, slide);
    let (p0, _, _) = bytes_spec(bytes, 0)->Ok_0;
    let (ps, _, _) = bytes_spec(bytes, slide)->Ok_0;
    assert forall|i: int| 0 <= i < m0.bindings@.len() implies #[trigger] ms.bindings@[i].address == m0.bindings@[i].address
        + slide && ms.bindings@[i].symbol@ == m0.bindings@[i].symbol@ by {
        assert(m0.bindings@.map_values(|b: crate::mach_o64::Binding64| (b.address, b.symbol@))[i] == p0.bindings[i]);
        assert(ms.bindings@.map_values(|b: crate::mach_o64::Binding64| (b.address, b.symbol@))[i] == ps.bindings[i]);
        assert(slid_progress(p0, ps, slide));
        assert(0 <= i < p0.bindings.len());
        assert(ps.bindings[i].1 == p0.bindings[i].1 && ps.bindings[i].0 == p0.bindings[i].0 + slide);
    }
}

} // verus!
