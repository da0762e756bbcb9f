//! Software decoding of `GL_OES_compressed_paletted_texture` data, for
//! drivers that do not take it: a palette of 16 or 256 entries followed by
//! one index per texel (a byte each, or a nibble each with the high nibble
//! first), decoded to the palette entries in texel order.

use vstd::prelude::*;
use crate::gles::gl::{RGB, RGBA, UNSIGNED_BYTE, UNSIGNED_SHORT_4_4_4_4, UNSIGNED_SHORT_5_5_5_1, UNSIGNED_SHORT_5_6_5};

verus! {

/// How a paletted texture format lays out its data.
#[derive(Debug, Clone, Copy, PartialEq, Eq, Structural)]
pub struct PalettedTextureFormat {
    pub index_is_nibble: bool,
    pub palette_entry_format: u32,
    pub palette_entry_type: u32,
}

/// The size in bytes of one palette entry of `format` and `type_`, for the
/// combinations paletted formats use.
pub open spec fn entry_size_spec(format: u32, type_: u32) -> Option<nat> {
    if type_ == UNSIGNED_BYTE {
        if format == RGB {
            Some(3)
        } else if format == RGBA {
            Some(4)
        } else {
            None
        }
    } else if type_ == UNSIGNED_SHORT_5_6_5 || type_ == UNSIGNED_SHORT_4_4_4_4 || type_ == UNSIGNED_SHORT_5_5_5_1 {
        Some(2)
    } else {
        None
    }
}

/// Whether `format` has an entry layout paletted textures use.
pub fn entry_layout_supported(format: &PalettedTextureFormat) -> (r: bool)
    ensures
        r == entry_size_spec(format.palette_entry_format, format.palette_entry_type) is Some,
{
    let t = format.palette_entry_type;
    let f = format.palette_entry_format;
    (t == UNSIGNED_BYTE && (f == RGB || f == RGBA)) || t == UNSIGNED_SHORT_5_6_5 || t == UNSIGNED_SHORT_4_4_4_4 || t
        == UNSIGNED_SHORT_5_5_5_1
}

pub fn palette_entry_size(format: u32, type_: u32) -> (r: usize)
    requires
        entry_size_spec(format, type_) is Some,
    ensures
        r == entry_size_spec(format, type_)->Some_0,
        2 <= r <= 4,
        type_ == UNSIGNED_SHORT_5_6_5 || type_ == UNSIGNED_SHORT_4_4_4_4 || type_ == UNSIGNED_SHORT_5_5_5_1 ==> r == 2,
        type_ == UNSIGNED_BYTE && format == RGB ==> r == 3,
        type_ == UNSIGNED_BYTE && format == RGBA ==> r == 4,
{
    if type_ == UNSIGNED_BYTE {
        if format == RGB {
            3
        } else {
            4
        }
    } else {
        2
    }
}

/// How many entries the palette holds.
pub open spec fn palette_entry_count(index_is_nibble: bool) -> nat {
    if index_is_nibble {
        16
    } else {
        256
    }
}

/// How many bytes the indices of `n` texels take: nibbles are packed two
/// to a byte, byte indices come in 4-byte words.
pub open spec fn index_data_size(index_is_nibble: bool, n: nat) -> nat {
    if index_is_nibble {
        ((n + 1) / 2) as nat
    } else {
        (4 * ((n + 3) / 4)) as nat
    }
}

/// The least payload size for `n` texels with entries of `entry_size` bytes.
pub open spec fn paletted_size(index_is_nibble: bool, entry_size: nat, n: nat) -> nat {
    entry_size * palette_entry_count(index_is_nibble) + index_data_size(index_is_nibble, n)
}

/// The palette index of texel `i`; the indices start at `start`.
pub open spec fn palette_index(payload: Seq<u8>, start: int, index_is_nibble: bool, i: int) -> int {
    if index_is_nibble {
        let b = payload[start + i / 2];
        if i % 2 == 0 {
            (b / 16) as int
        } else {
            (b % 16) as int
        }
    } else {
        payload[start + i] as int
    }
}

/// The palette entry of texel `i`.
pub open spec fn texel_entry(payload: Seq<u8>, index_is_nibble: bool, entry_size: nat, i: int) -> Seq<u8> {
    let k = palette_index(payload, (entry_size * palette_entry_count(index_is_nibble)) as int, index_is_nibble, i);
    payload.subrange(k * entry_size, k * entry_size + entry_size)
}

/// The decoded texels: each texel's palette entry, in order.
pub open spec fn decoded_texels(payload: Seq<u8>, index_is_nibble: bool, entry_size: nat, n: nat) -> Seq<u8> {
    Seq::new(n, |i: int| texel_entry(payload, index_is_nibble, entry_size, i)).flatten()
}

proof fn lemma_index_in_data(index_is_nibble: bool, n: nat, i: int)
    requires
        0 <= i < n,
    ensures
        index_is_nibble ==> i / 2 < index_data_size(index_is_nibble, n),
        !index_is_nibble ==> i < index_data_size(index_is_nibble, n),
{
    assert(i / 2 < (n + 1) / 2) by (nonlinear_arith)
        requires
            0 <= i < n,
    ;
    assert(i < 4 * ((n + 3) / 4)) by (nonlinear_arith)
        requires
            0 <= i < n,
    ;
}

proof fn lemma_entry_in_palette(k: int, entry_size: int, count: int)
    requires
        0 <= k < count,
        0 < entry_size,
    ensures
        k * entry_size + entry_size <= entry_size * count,
        0 <= k * entry_size,
{
    assert(k * entry_size + entry_size <= entry_size * count) by (nonlinear_arith)
        requires
            0 <= k < count,
            0 < entry_size,
    ;
    assert(0 <= k * entry_size) by (nonlinear_arith)
        requires
            0 <= k,
            0 < entry_size,
    ;
}

/// The 16-bit entry types (`UNSIGNED_SHORT_5_6_5`, `UNSIGNED_SHORT_4_4_4_4`,
/// `UNSIGNED_SHORT_5_5_5_1`) have 2-byte entries whatever the format: the
/// palette takes 2 bytes per entry, a payload decodes exactly when it holds
/// that palette and the indices, and each texel decodes to the 2 bytes of
/// its palette entry.
pub proof fn law_sixteen_bit_entries_take_two_bytes(payload: Seq<u8>, format: PalettedTextureFormat, n: nat, i: int)
    requires
        format.palette_entry_type == UNSIGNED_SHORT_5_6_5 || format.palette_entry_type == UNSIGNED_SHORT_4_4_4_4
            || format.palette_entry_type == UNSIGNED_SHORT_5_5_5_1,
        0 <= i < n,
    ensures
        entry_size_spec(format.palette_entry_format, format.palette_entry_type) == Some(2nat),
        paletted_size(format.index_is_nibble, 2, n) == 2 * palette_entry_count(format.index_is_nibble)
            + index_data_size(format.index_is_nibble, n),
        ({
            let k = palette_index(
                payload,
                (2 * palette_entry_count(format.index_is_nibble)) as int,
                format.index_is_nibble,
                i,
            );
            texel_entry(payload, format.index_is_nibble, 2, i) == payload.subrange(2 * k, 2 * k + 2)
        }),
{
}

/// Decodes the paletted texture `payload` of `width` × `height` texels to
/// its palette entries; `None` where the payload is too short for them.
pub fn decode_paletted_texture(payload: &[u8], format: PalettedTextureFormat, width: usize, height: usize) -> (r: Option<Vec<u8>>)
    requires
        entry_size_spec(format.palette_entry_format, format.palette_entry_type) is Some,
        width * height + 2048 <= usize::MAX,
    ensures
        ({
            let es = entry_size_spec(format.palette_entry_format, format.palette_entry_type)->Some_0;
            let n = (width * height) as nat;
            &&& r is None <==> payload@.len() < paletted_size(format.index_is_nibble, es, n)
            &&& r is Some ==> r->Some_0@ == decoded_texels(payload@, format.index_is_nibble, es, n)
            &&& r is Some ==> r->Some_0@.len() == es * n
            &&& format.palette_entry_type == UNSIGNED_SHORT_5_6_5 || format.palette_entry_type == UNSIGNED_SHORT_4_4_4_4
                || format.palette_entry_type == UNSIGNED_SHORT_5_5_5_1 ==> (r is None <==> payload@.len() < 2
                * palette_entry_count(format.index_is_nibble) + index_data_size(format.index_is_nibble, n))
        }),
{
    let nibble = format.index_is_nibble;
    let es = palette_entry_size(format.palette_entry_format, format.palette_entry_type);
    let count: usize = if nibble { 16 } else { 256 };
    let palette_size = es * count;
    let n = width * height;
    let indices_size = if nibble { (n + 1) / 2 } else { 4 * ((n + 3) / 4) };
    assert(4 * ((n + 3) / 4) <= n + 3) by (nonlinear_arith);
    let expected = palette_size + indices_size;
    if payload.len() < expected {
        return None;
    }
    let ghost es_n = es as nat;
    let ghost entries = Seq::new(n as nat, |i: int| texel_entry(payload@, nibble, es_n, i));
    let mut out: Vec<u8> = Vec::new();
    let mut i: usize = 0;
    while i < n
        invariant
            i <= n,
            n == width * height,
            2 <= es <= 4,
            es_n == es,
            count == palette_entry_count(nibble),
            palette_size == es * count,
            indices_size == index_data_size(nibble, n as nat),
            payload@.len() >= palette_size + indices_size,
            palette_size + indices_size <= payload.len(),
            entries == Seq::new(n as nat, |i: int| texel_entry(payload@, nibble, es_n, i)),
            out@ == entries.subrange(0, i as int).flatten(),
            out@.len() == es * i,
        decreases n - i,
    {
        proof {
            lemma_index_in_data(nibble, n as nat, i as int);
        }
        let index: usize = if nibble {
            let b = payload[palette_size + i / 2];
            if i % 2 == 0 {
                (b / 16) as usize
            } else {
                (b % 16) as usize
            }
        } else {
            assert(i < indices_size);
            payload[palette_size + i] as usize
        };
        assert(index == palette_index(payload@, palette_size as int, nibble, i as int));
        proof {
            lemma_entry_in_palette(index as int, es as int, count as int);
        }
        let start = index * es;
        let ghost prefix = out@;
        let mut k: usize = 0;
        while k < es
            invariant
                k <= es,
                start + es <= palette_size,
                palette_size <= payload@.len(),
                out@ == prefix + payload@.subrange(start as int, start + k),
            decreases es - k,
        {
            out.push(payload[start + k]);
            assert(payload@.subrange(start as int, start + k + 1) =~= payload@.subrange(start as int, start + k).push(
                payload@[start + k],
            ));
            k = k + 1;
        }
        proof {
            assert(entries[i as int] == payload@.subrange(start as int, start + es));
            assert(entries.subrange(0, i + 1) =~= entries.subrange(0, i as int).push(entries[i as int]));
            entries.subrange(0, i as int).lemma_flatten_push(entries[i as int]);
            assert(out@.len() == es * i + es);
            assert(es * i + es == es * (i + 1)) by (nonlinear_arith);
        }
        i = i + 1;
    }
    assert(entries.subrange(0, n as int) =~= entries);
    Some(out)
}

} // verus!
