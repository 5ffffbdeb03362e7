use vstd::prelude::*;

verus! {

/// Byte size of one element of a format.
pub trait FormatSize {
    fn size(&self) -> usize;
}

/// Layout of one vertex attribute, as it maps onto a shader type.
#[derive(Copy, Clone, Debug, Hash, PartialEq, Eq, Structural)]
pub enum VertexFormat {
    /// One single-precision float: `float` in shaders.
    Float32,
    /// Two single-precision floats: `vec2` in shaders.
    Float32x2,
    /// Three single-precision floats: `vec3` in shaders.
    Float32x3,
    /// Four single-precision floats: `vec4` in shaders.
    Float32x4,
    /// One unsigned integer: `uint` in shaders. The vertex stage has no
    /// shader value for it and refuses layouts that name it.
    Uint32,
}

/// Bytes that one value of format `f` takes in an interleaved vertex record.
pub open spec fn vertex_format_size(f: VertexFormat) -> nat {
    match f {
        VertexFormat::Float32 => 4,
        VertexFormat::Float32x2 => 8,
        VertexFormat::Float32x3 => 12,
        VertexFormat::Float32x4 => 16,
        VertexFormat::Uint32 => 4,
    }
}

/// Number of 32-bit components in one value of format `f`.
pub open spec fn vertex_format_components(f: VertexFormat) -> nat {
    match f {
        VertexFormat::Float32 => 1,
        VertexFormat::Float32x2 => 2,
        VertexFormat::Float32x3 => 3,
        VertexFormat::Float32x4 => 4,
        VertexFormat::Uint32 => 1,
    }
}

/// Sum of the sizes of the formats of a layout: the stride of a vertex record.
pub open spec fn layout_stride(layout: Seq<VertexFormat>) -> nat
    decreases layout.len(),
{
    if layout.len() == 0 {
        0
    } else {
        layout_stride(layout.drop_last()) + vertex_format_size(layout.last())
    }
}

/// Offset of the `k`-th run within a vertex record of the given layout.
pub open spec fn layout_offset(layout: Seq<VertexFormat>, k: int) -> nat {
    layout_stride(layout.subrange(0, k))
}

impl VertexFormat {
    pub fn size(&self) -> (r: usize)
        ensures
            r == vertex_format_size(*self),
    {
        match self {
            VertexFormat::Float32 => 4,
            VertexFormat::Float32x2 => 8,
            VertexFormat::Float32x3 => 12,
            VertexFormat::Float32x4 => 16,
            VertexFormat::Uint32 => 4,
        }
    }
}

impl FormatSize for VertexFormat {
    fn size(&self) -> usize {
        VertexFormat::size(self)
    }
}

/// Texel layout of a texture or a render surface; 8-bit unsigned normalized
/// channels throughout.
#[derive(Copy, Clone, Debug, PartialEq, Eq, Structural)]
pub enum TextureFormat {
    /// Red, green, blue and alpha.
    Rgba8Unorm,
    /// Red, green and blue.
    Rgb8Unorm,
    /// Red only.
    R8Unorm,
}

/// Bytes per texel of format `f`.
pub open spec fn texture_format_size(f: TextureFormat) -> nat {
    match f {
        TextureFormat::Rgba8Unorm => 4,
        TextureFormat::Rgb8Unorm => 3,
        TextureFormat::R8Unorm => 1,
    }
}

impl TextureFormat {
    pub fn size(&self) -> (r: usize)
        ensures
            r == texture_format_size(*self),
            1 <= r <= 4,
    {
        match self {
            TextureFormat::Rgba8Unorm => 4,
            TextureFormat::R8Unorm => 1,
            TextureFormat::Rgb8Unorm => 3,
        }
    }
}

impl FormatSize for TextureFormat {
    fn size(&self) -> usize {
        TextureFormat::size(self)
    }
}

impl Default for TextureFormat {
    fn default() -> (r: TextureFormat)
        ensures
            r == TextureFormat::Rgba8Unorm,
    {
        TextureFormat::Rgba8Unorm
    }
}

/// Sum of the sizes of the formats of a layout, in bytes; `None` where it
/// does not fit in a `usize`.
pub fn stride_of(layout: &[VertexFormat]) -> (r: Option<usize>)
    ensures
        match r {
            Some(n) => n == layout_stride(layout@),
            None => layout_stride(layout@) > usize::MAX,
        },
{
    let mut total: usize = 0;
    let mut k: usize = 0;
    while k < layout.len()
        invariant
            k <= layout.len(),
            total == layout_stride(layout@.subrange(0, k as int)),
        decreases layout.len() - k,
    {
        proof {
            assert(layout@.subrange(0, k as int + 1).drop_last() =~= layout@.subrange(0, k as int));
        }
        match total.checked_add(layout[k].size()) {
            Some(t) => {
                total = t;
            },
            None => {
                proof {
                    lemma_stride_prefix_le(layout@, k as int + 1);
                }
                return None;
            },
        }
        k = k + 1;
    }
    assert(layout@.subrange(0, k as int) =~= layout@);
    Some(total)
}

/// A prefix of a layout is no wider than the whole layout.
pub proof fn lemma_stride_prefix_le(layout: Seq<VertexFormat>, k: int)
    requires
        0 <= k <= layout.len(),
    ensures
        layout_stride(layout.subrange(0, k)) <= layout_stride(layout),
    decreases layout.len(),
{
    if k < layout.len() {
        lemma_stride_prefix_le(layout.drop_last(), k);
        assert(layout.drop_last().subrange(0, k) =~= layout.subrange(0, k));
    } else {
        assert(layout.subrange(0, k) =~= layout);
    }
}

} // verus!
