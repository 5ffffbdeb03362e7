use crate::error::RenderError;
use crate::format::{
    layout_offset, layout_stride, lemma_stride_prefix_le, stride_of, vertex_format_components,
    vertex_format_size, VertexFormat,
};
use crate::mesh::{
    interleaved, is_ragged, lemma_layout_slices_interleaved,
    lemma_words_bytes_len, mesh_layout, mesh_vertex_count, mesh_wf, word_bytes,
    words_bytes, MeshEntry,
};
use crate::seq_lemmas::lemma_flatten_uniform_chunk;
use vstd::prelude::*;

verus! {

/// A typed shader value whose float components are held as IEEE-754 bit
/// patterns (`f32::to_bits`).
#[derive(Copy, Clone, Debug)]
pub enum RawShaderValue {
    F32(u32),
    Vec2([u32; 2]),
    Vec3([u32; 3]),
    Vec4([u32; 4]),
}

/// The components of a value, in order.
pub open spec fn raw_words(v: RawShaderValue) -> Seq<u32> {
    match v {
        RawShaderValue::F32(x) => seq![x],
        RawShaderValue::Vec2(a) => a@,
        RawShaderValue::Vec3(a) => a@,
        RawShaderValue::Vec4(a) => a@,
    }
}

/// The vertex format that a value has.
pub open spec fn raw_format(v: RawShaderValue) -> VertexFormat {
    match v {
        RawShaderValue::F32(_) => VertexFormat::Float32,
        RawShaderValue::Vec2(_) => VertexFormat::Float32x2,
        RawShaderValue::Vec3(_) => VertexFormat::Float32x3,
        RawShaderValue::Vec4(_) => VertexFormat::Float32x4,
    }
}

impl RawShaderValue {
    /// The components widened to four with zeros (`0` is the bit pattern of
    /// `0.0`).
    pub fn widen(&self) -> (r: [u32; 4])
        ensures
            r@ == raw_words(*self) + Seq::new((4 - raw_words(*self).len()) as nat, |j: int| 0u32),
    {
        let r = match *self {
            RawShaderValue::F32(x) => [x, 0, 0, 0],
            RawShaderValue::Vec2(a) => [a[0], a[1], 0, 0],
            RawShaderValue::Vec3(a) => [a[0], a[1], a[2], 0],
            RawShaderValue::Vec4(a) => a,
        };
        assert(r@ =~= raw_words(*self) + Seq::new((4 - raw_words(*self).len()) as nat, |j: int| 0u32));
        r
    }

    /// The leading components of `v` as a value of `format`; `None` for a
    /// format that no shader value has.
    pub fn narrow(v: [u32; 4], format: VertexFormat) -> (r: Option<RawShaderValue>)
        ensures
            format == VertexFormat::Uint32 ==> r is None,
            format != VertexFormat::Uint32 ==> r is Some && raw_format(r->Some_0) == format
                && raw_words(r->Some_0) == v@.subrange(0, vertex_format_components(format) as int),
    {
        let r = match format {
            VertexFormat::Float32 => Some(RawShaderValue::F32(v[0])),
            VertexFormat::Float32x2 => Some(RawShaderValue::Vec2([v[0], v[1]])),
            VertexFormat::Float32x3 => Some(RawShaderValue::Vec3([v[0], v[1], v[2]])),
            VertexFormat::Float32x4 => Some(RawShaderValue::Vec4(v)),
            VertexFormat::Uint32 => None,
        };
        proof {
            if let Some(x) = r {
                assert(raw_words(x) =~= v@.subrange(0, vertex_format_components(format) as int));
            }
        }
        r
    }
}

/// The little-endian 32-bit word whose bytes start at `o`.
pub open spec fn le_word(b: Seq<u8>, o: int) -> u32 {
    (b[o] as u32) | ((b[o + 1] as u32) << 8u32) | ((b[o + 2] as u32) << 16u32) | ((b[o + 3] as u32)
        << 24u32)
}

/// The components of a value of format `f` whose bytes start at `o`.
pub open spec fn decoded_words(b: Seq<u8>, o: int, f: VertexFormat) -> Seq<u32> {
    Seq::new(vertex_format_components(f), |j: int| le_word(b, o + 4 * j))
}

/// Every format of the layout has a decoder.
pub open spec fn layout_supported(layout: Seq<VertexFormat>) -> bool {
    forall|k: int| 0 <= k < layout.len() ==> layout[k] != VertexFormat::Uint32
}

/// The record of vertex `i` lies within a buffer of `len` bytes.
pub open spec fn vertex_fits(len: nat, layout: Seq<VertexFormat>, i: int) -> bool {
    (i + 1) * layout_stride(layout) <= len
}

/// `vals` are the locations decoded from the record of vertex `i`: one value
/// per format of the layout, read from the format's run of the record.
pub open spec fn decodes_vertex(b: Seq<u8>, layout: Seq<VertexFormat>, i: int, vals: Seq<RawShaderValue>) -> bool {
    &&& vals.len() == layout.len()
    &&& forall|k: int|
        0 <= k < layout.len() ==> raw_format(#[trigger] vals[k]) == layout[k] && raw_words(vals[k])
            == decoded_words(b, i * layout_stride(layout) + layout_offset(layout, k), layout[k])
}

fn read_word(b: &[u8], o: usize) -> (r: u32)
    requires
        o + 4 <= b@.len(),
    ensures
        r == le_word(b@, o as int),
{
    (b[o] as u32) | ((b[o + 1] as u32) << 8u32) | ((b[o + 2] as u32) << 16u32) | ((b[o + 3] as u32)
        << 24u32)
}

fn decode_value(b: &[u8], o: usize, f: VertexFormat) -> (r: RawShaderValue)
    requires
        f != VertexFormat::Uint32,
        o + vertex_format_size(f) <= b@.len(),
    ensures
        raw_format(r) == f,
        raw_words(r) == decoded_words(b@, o as int, f),
{
    let _len = b.len();
    match f {
        VertexFormat::Float32 => {
            let r = RawShaderValue::F32(read_word(b, o));
            assert(raw_words(r) =~= decoded_words(b@, o as int, f));
            r
        },
        VertexFormat::Float32x2 => {
            let r = RawShaderValue::Vec2([read_word(b, o), read_word(b, o + 4)]);
            assert(raw_words(r) =~= decoded_words(b@, o as int, f));
            r
        },
        VertexFormat::Float32x3 => {
            let r = RawShaderValue::Vec3([read_word(b, o), read_word(b, o + 4), read_word(b, o + 8)]);
            assert(raw_words(r) =~= decoded_words(b@, o as int, f));
            r
        },
        _ => {
            let r = RawShaderValue::Vec4(
                [read_word(b, o), read_word(b, o + 4), read_word(b, o + 8), read_word(b, o + 12)],
            );
            assert(raw_words(r) =~= decoded_words(b@, o as int, f));
            r
        },
    }
}

/// Whether every format of the layout has a decoder.
pub fn is_layout_supported(layout: &[VertexFormat]) -> (r: bool)
    ensures
        r == layout_supported(layout@),
{
    let mut k: usize = 0;
    while k < layout.len()
        invariant
            k <= layout.len(),
            forall|q: int| 0 <= q < k ==> layout@[q] != VertexFormat::Uint32,
        decreases layout.len() - k,
    {
        if matches!(layout[k], VertexFormat::Uint32) {
            return false;
        }
        k = k + 1;
    }
    true
}

/// Decodes the locations of vertex `index` from an interleaved vertex buffer:
/// the record of `stride` bytes at `index * stride`, split into the layout's
/// runs.
pub fn fetch_vertex(buffer: &[u8], layout: &[VertexFormat], index: u32) -> (r: Result<Vec<RawShaderValue>, RenderError>)
    ensures
        !layout_supported(layout@) ==> r == Err::<Vec<RawShaderValue>, RenderError>(RenderError::UnsupportedFormat),
        layout_supported(layout@) && !vertex_fits(buffer@.len(), layout@, index as int) ==> r == Err::<
            Vec<RawShaderValue>,
            RenderError,
        >(RenderError::BufferOverflow),
        layout_supported(layout@) && vertex_fits(buffer@.len(), layout@, index as int) ==> r is Ok
            && decodes_vertex(buffer@, layout@, index as int, r->Ok_0@),
{
    if !is_layout_supported(layout) {
        return Err(RenderError::UnsupportedFormat);
    }
    let len = buffer.len();
    let stride = match stride_of(layout) {
        Some(s) => s,
        None => {
            assert((index + 1) * layout_stride(layout@) >= layout_stride(layout@)) by (nonlinear_arith);
            return Err(RenderError::BufferOverflow);
        },
    };
    let start = match (index as usize).checked_mul(stride) {
        Some(s) => s,
        None => {
            assert((index + 1) * stride >= index * stride) by (nonlinear_arith);
            return Err(RenderError::BufferOverflow);
        },
    };
    let end = match start.checked_add(stride) {
        Some(e) => e,
        None => {
            assert((index + 1) * stride == index * stride + stride) by (nonlinear_arith);
            return Err(RenderError::BufferOverflow);
        },
    };
    assert((index + 1) * stride == index * stride + stride) by (nonlinear_arith);
    if end > len {
        return Err(RenderError::BufferOverflow);
    }
    let mut vals: Vec<RawShaderValue> = Vec::new();
    let mut offset: usize = 0;
    let mut k: usize = 0;
    while k < layout.len()
        invariant
            layout_supported(layout@),
            stride == layout_stride(layout@),
            start == index * stride,
            start + stride <= buffer@.len(),
            len == buffer@.len(),
            k <= layout.len(),
            offset == layout_offset(layout@, k as int),
            vals@.len() == k,
            forall|q: int|
                0 <= q < k ==> raw_format(#[trigger] vals@[q]) == layout@[q] && raw_words(vals@[q])
                    == decoded_words(buffer@, start + layout_offset(layout@, q), layout@[q]),
        decreases layout.len() - k,
    {
        let f = layout[k];
        proof {
            lemma_stride_prefix_le(layout@, k as int + 1);
            assert(layout@.subrange(0, k as int + 1).drop_last() =~= layout@.subrange(0, k as int));
        }
        vals.push(decode_value(buffer, start + offset, f));
        offset = offset + f.size();
        k = k + 1;
    }
    Ok(vals)
}

/// Decodes the locations of each vertex named by `indices`, in order.
pub fn fetch_vertices(buffer: &[u8], layout: &[VertexFormat], indices: &[u32]) -> (r: Result<Vec<Vec<RawShaderValue>>, RenderError>)
    ensures
        !layout_supported(layout@) ==> r == Err::<Vec<Vec<RawShaderValue>>, RenderError>(RenderError::UnsupportedFormat),
        layout_supported(layout@) && (exists|j: int| 0 <= j < indices@.len() && !vertex_fits(buffer@.len(), layout@, #[trigger] indices@[j] as int))
            ==> r == Err::<Vec<Vec<RawShaderValue>>, RenderError>(RenderError::BufferOverflow),
        layout_supported(layout@) && (forall|j: int| 0 <= j < indices@.len() ==> vertex_fits(buffer@.len(), layout@, #[trigger] indices@[j] as int))
            ==> r is Ok && r->Ok_0@.len() == indices@.len() && forall|j: int| 0 <= j < indices@.len()
                ==> decodes_vertex(buffer@, layout@, indices@[j] as int, #[trigger] r->Ok_0@[j]@),
{
    if !is_layout_supported(layout) {
        return Err(RenderError::UnsupportedFormat);
    }
    let mut out: Vec<Vec<RawShaderValue>> = Vec::new();
    let mut j: usize = 0;
    while j < indices.len()
        invariant
            layout_supported(layout@),
            j <= indices@.len(),
            out@.len() == j,
            forall|q: int| 0 <= q < j ==> vertex_fits(buffer@.len(), layout@, #[trigger] indices@[q] as int),
            forall|q: int| 0 <= q < j ==> decodes_vertex(buffer@, layout@, indices@[q] as int, #[trigger] out@[q]@),
        decreases indices@.len() - j,
    {
        match fetch_vertex(buffer, layout, indices[j]) {
            Ok(vals) => {
                out.push(vals);
            },
            Err(e) => {
                return Err(e);
            },
        }
        j = j + 1;
    }
    Ok(out)
}

/// The vertex ids `start..end` of a non-indexed draw.
pub fn sequential_indices(start: u32, end: u32) -> (r: Vec<u32>)
    ensures
        r@.len() == if start < end { end - start } else { 0 },
        forall|j: int| 0 <= j < r@.len() ==> #[trigger] r@[j] == start + j,
{
    let mut r: Vec<u32> = Vec::new();
    if start >= end {
        return r;
    }
    let mut i: u32 = start;
    while i < end
        invariant
            start <= i,
            i <= end,
            r@.len() == i - start,
            forall|j: int| 0 <= j < r@.len() ==> #[trigger] r@[j] == start + j,
        decreases end - i,
    {
        r.push(i);
        i = i + 1;
    }
    r
}

/// The vertex ids that the index buffer holds at positions `start..end`.
pub fn index_resolution(index_buffer: &[u32], start: u32, end: u32) -> (r: Result<Vec<u32>, RenderError>)
    ensures
        start < end && end > index_buffer@.len() ==> r == Err::<Vec<u32>, RenderError>(RenderError::BufferOverflow),
        end <= start ==> r is Ok && r->Ok_0@.len() == 0,
        start < end <= index_buffer@.len() ==> r is Ok && r->Ok_0@ == index_buffer@.subrange(start as int, end as int),
{
    let mut r: Vec<u32> = Vec::new();
    if start >= end {
        return Ok(r);
    }
    if end as usize > index_buffer.len() {
        return Err(RenderError::BufferOverflow);
    }
    let mut i: usize = start as usize;
    while i < end as usize
        invariant
            start <= i <= end <= index_buffer@.len(),
            r@ == index_buffer@.subrange(start as int, i as int),
        decreases end - i,
    {
        r.push(index_buffer[i]);
        i = i + 1;
        assert(r@ =~= index_buffer@.subrange(start as int, i as int));
    }
    Ok(r)
}

/// Triangle `t` of a triangle list: outputs `3t`, `3t + 1` and `3t + 2`, all
/// inside the clip volume.
pub open spec fn triangle_kept(inside: Seq<bool>, t: int) -> bool {
    0 <= t && 3 * t + 2 < inside.len() && inside[3 * t] && inside[3 * t + 1] && inside[3 * t + 2]
}

/// Groups every three successive vertex outputs into a triangle and drops
/// each triangle with an output outside the clip volume (`inside[j]` tells
/// whether output `j` lies in it). Returns the numbers of the triangles kept,
/// in ascending order.
pub fn primitive_assembly_clipping(inside: &[bool]) -> (r: Vec<usize>)
    ensures
        forall|a: int, b: int| 0 <= a < b < r@.len() ==> r@[a] < r@[b],
        forall|a: int| 0 <= a < r@.len() ==> triangle_kept(inside@, #[trigger] r@[a] as int),
        forall|t: int| triangle_kept(inside@, t) ==> r@.contains(t as usize),
{
    let len = inside.len();
    let n = len / 3;
    let mut r: Vec<usize> = Vec::new();
    let mut t: usize = 0;
    while t < n
        invariant
            len == inside@.len(),
            n == len / 3,
            t <= n,
            forall|a: int, b: int| 0 <= a < b < r@.len() ==> r@[a] < r@[b],
            forall|a: int| 0 <= a < r@.len() ==> r@[a] < t,
            forall|a: int| 0 <= a < r@.len() ==> triangle_kept(inside@, #[trigger] r@[a] as int),
            forall|q: int| 0 <= q < t && triangle_kept(inside@, q) ==> r@.contains(q as usize),
        decreases n - t,
    {
        let ghost old_r = r@;
        assert(3 * t + 2 < len) by (nonlinear_arith)
            requires
                t < n,
                n == len / 3,
                len == inside@.len(),
        ;
        if inside[3 * t] && inside[3 * t + 1] && inside[3 * t + 2] {
            r.push(t);
            proof {
                assert forall|q: int| 0 <= q < t + 1 && triangle_kept(inside@, q) implies r@.contains(q as usize) by {
                    if q == t {
                        assert(r@[r@.len() - 1] == t);
                    } else {
                        let a = choose|a: int| 0 <= a < old_r.len() && old_r[a] == q as usize;
                        assert(r@[a] == q as usize);
                    }
                }
            }
        }
        t = t + 1;
    }
    r
}


/// A word reads back from its little-endian bytes.
proof fn lemma_le_word_of_bytes(w: u32)
    ensures
        le_word(word_bytes(w), 0) == w,
{
    let b = word_bytes(w);
    assert(b[0] == (w & 0xff) as u8 && b[1] == ((w >> 8u32) & 0xff) as u8 && b[2] == ((w >> 16u32)
        & 0xff) as u8 && b[3] == ((w >> 24u32) & 0xff) as u8);
    assert(((w & 0xff) as u8 as u32) | ((((w >> 8u32) & 0xff) as u8 as u32) << 8u32) | ((((w >> 16u32)
        & 0xff) as u8 as u32) << 16u32) | ((((w >> 24u32) & 0xff) as u8 as u32) << 24u32) == w)
        by (bit_vector);
}

/// The bytes of word `j` of a run sit at `4 * j`.
proof fn lemma_words_bytes_at(ws: Seq<u32>, j: int)
    requires
        0 <= j < ws.len(),
    ensures
        4 * j + 4 <= words_bytes(ws).len(),
        words_bytes(ws).subrange(4 * j, 4 * j + 4) == word_bytes(ws[j]),
    decreases ws.len(),
{
    lemma_words_bytes_len(ws);
    lemma_words_bytes_len(ws.drop_last());
    if j < ws.len() - 1 {
        lemma_words_bytes_at(ws.drop_last(), j);
        assert(words_bytes(ws).subrange(4 * j, 4 * j + 4) =~= words_bytes(ws.drop_last()).subrange(
            4 * j,
            4 * j + 4,
        ));
    } else {
        assert(words_bytes(ws).subrange(4 * j, 4 * j + 4) =~= word_bytes(ws.last()));
    }
}

/// The vertex stage reads back what a mesh stored: in the interleaved buffer
/// of a mesh, decoding the run that the layout gives attribute `k` in the
/// record of vertex `i` yields that attribute's value for vertex `i`.
pub proof fn lemma_fetch_reads_mesh_values(s: Seq<MeshEntry>, i: int, k: int)
    requires
        mesh_wf(s),
        !is_ragged(s),
        0 <= i < mesh_vertex_count(s),
        0 <= k < s.len(),
        layout_supported(mesh_layout(s)),
    ensures
        decoded_words(
            interleaved(s),
            i * layout_stride(mesh_layout(s)) + layout_offset(mesh_layout(s), k),
            mesh_layout(s)[k],
        ) == s[k].1[i],
{
    let layout = mesh_layout(s);
    let f = layout[k];
    let e = s[k];
    let sz = vertex_format_size(f) as int;
    let start = i * layout_stride(layout) + layout_offset(layout, k);
    let whole = interleaved(s);
    lemma_layout_slices_interleaved(s, i, k);
    assert(f != VertexFormat::Uint32);
    assert(e.1.len() == s[0].1.len());
    let chunks = Seq::new(e.1.len(), |q: int| words_bytes(e.1[q]));
    assert forall|q: int| 0 <= q < chunks.len() implies (#[trigger] chunks[q]).len() == sz by {
        lemma_words_bytes_len(e.1[q]);
    }
    lemma_flatten_uniform_chunk(chunks, sz as nat, i);
    let run = whole.subrange(start, start + sz);
    assert(run == words_bytes(e.1[i]));
    let w = e.1[i];
    assert forall|j: int| 0 <= j < vertex_format_components(f) implies #[trigger] le_word(whole, start + 4 * j)
        == w[j] by {
        lemma_words_bytes_at(w, j);
        lemma_le_word_of_bytes(w[j]);
        assert(whole[start + 4 * j] == word_bytes(w[j])[0]);
        assert(whole[start + 4 * j + 1] == word_bytes(w[j])[1]);
        assert(whole[start + 4 * j + 2] == word_bytes(w[j])[2]);
        assert(whole[start + 4 * j + 3] == word_bytes(w[j])[3]);
    }
    assert(decoded_words(whole, start, f) =~= w);
}

} // verus!
