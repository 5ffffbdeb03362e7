use crate::format::{texture_format_size, TextureFormat};
use crate::mesh::F32_ONE_BITS;
use vstd::prelude::*;

verus! {

/// Bit pattern of an `f32` with its sign bit alone set.
pub const F32_SIGN_BIT: u32 = 0x8000_0000;

/// Bit pattern of positive infinity; magnitudes above it are NaN.
pub const F32_INFINITY_BITS: u32 = 0x7f80_0000;

/// The size and color format of the surface that draws render to.
#[derive(Copy, Clone, Debug)]
pub struct RenderSurface {
    pub width: usize,
    pub height: usize,
    pub format: TextureFormat,
}

/// Half-open pixel ranges `x0..x1` and `y0..y1`.
#[derive(Copy, Clone, Debug)]
pub struct PixelRect {
    pub x0: usize,
    pub y0: usize,
    pub x1: usize,
    pub y1: usize,
}

/// `v` clamped to `[0, hi]`.
pub open spec fn clamp_to(v: int, hi: int) -> int {
    if v < 0 {
        0
    } else if v > hi {
        hi
    } else {
        v
    }
}

fn clamp_coord(v: i64, hi: usize) -> (r: usize)
    ensures
        r == clamp_to(v as int, hi as int),
{
    if v < 0 {
        0
    } else if v as u64 > hi as u64 {
        hi
    } else {
        v as usize
    }
}

impl RenderSurface {
    /// The pixels to scan for a triangle whose framebuffer-space bounding box
    /// runs from `(min_x, min_y)` (floors) to `(max_x, max_y)` (ceilings),
    /// clamped to the surface.
    pub fn pixel_bounds(&self, min_x: i64, min_y: i64, max_x: i64, max_y: i64) -> (r: PixelRect)
        ensures
            r.x0 == clamp_to(min_x as int, self.width as int),
            r.y0 == clamp_to(min_y as int, self.height as int),
            r.x1 == clamp_to(max_x as int, self.width as int),
            r.y1 == clamp_to(max_y as int, self.height as int),
    {
        PixelRect {
            x0: clamp_coord(min_x, self.width),
            y0: clamp_coord(min_y, self.height),
            x1: clamp_coord(max_x, self.width),
            y1: clamp_coord(max_y, self.height),
        }
    }
}

/// The scan rectangle of `pixel_bounds` leaves out no pixel of the surface
/// whose column lies in `min_x..max_x` and whose row lies in `min_y..max_y`:
/// with floors of the minima and ceilings of the maxima, these are the
/// pixels whose centers lie strictly inside the bounding box.
pub proof fn lemma_bounds_cover_pixels(
    surface: RenderSurface,
    min_x: int,
    min_y: int,
    max_x: int,
    max_y: int,
    px: int,
    py: int,
)
    requires
        0 <= px < surface.width,
        0 <= py < surface.height,
        min_x <= px < max_x,
        min_y <= py < max_y,
    ensures
        clamp_to(min_x, surface.width as int) <= px < clamp_to(max_x, surface.width as int),
        clamp_to(min_y, surface.height as int) <= py < clamp_to(max_y, surface.height as int),
{
}

/// The bit pattern is a NaN: all exponent bits set and a nonzero mantissa.
pub open spec fn is_nan_bits(b: u32) -> bool {
    b & 0x7fff_ffff > F32_INFINITY_BITS
}

/// The depth that a fragment of depth `b` (an `f32` bit pattern) offers to the
/// depth test: `b` clamped to `[0, 1]`, or none for a NaN, which passes no
/// test. Negative values and `-0.0` become `+0.0`. For non-negative floats the
/// order of the values is the order of their bit patterns, so depths compare
/// as unsigned integers.
pub open spec fn clamped_depth(b: u32) -> Option<u32> {
    if is_nan_bits(b) {
        None
    } else if b & F32_SIGN_BIT != 0 {
        Some(0)
    } else if b > F32_ONE_BITS {
        Some(F32_ONE_BITS)
    } else {
        Some(b)
    }
}

/// The stored depth after a fragment of depth `b` meets a stored depth
/// `stored`: the test passes iff the clamped depth is strictly greater.
pub open spec fn depth_step(stored: u32, b: u32) -> u32 {
    match clamped_depth(b) {
        Some(d) => if d > stored {
            d
        } else {
            stored
        },
        None => stored,
    }
}

/// A fragment of depth `b` passes the depth test against `stored`.
pub open spec fn depth_passes(stored: u32, b: u32) -> bool {
    match clamped_depth(b) {
        Some(d) => d > stored,
        None => false,
    }
}

/// The stored depth after fragments of depths `frags` meet, in order, a
/// stored depth `init`.
pub open spec fn depth_after(init: u32, frags: Seq<u32>) -> u32
    decreases frags.len(),
{
    if frags.len() == 0 {
        init
    } else {
        depth_step(depth_after(init, frags.drop_last()), frags.last())
    }
}

/// Clamps a depth given as an `f32` bit pattern to `[0, 1]`; `None` for NaN.
pub fn clamp_depth(b: u32) -> (r: Option<u32>)
    ensures
        r == clamped_depth(b),
{
    if (b & 0x7fff_ffff) > F32_INFINITY_BITS {
        None
    } else if (b & F32_SIGN_BIT) != 0 {
        Some(0)
    } else if b > F32_ONE_BITS {
        Some(F32_ONE_BITS)
    } else {
        Some(b)
    }
}

/// The bytes that a color `rgb` takes in a surface of format `f`; opaque
/// writes give RGBA surfaces an alpha of 255.
pub open spec fn pixel_bytes(f: TextureFormat, rgb: [u8; 3]) -> Seq<u8> {
    match f {
        TextureFormat::Rgba8Unorm => seq![rgb[0], rgb[1], rgb[2], 255u8],
        TextureFormat::Rgb8Unorm => seq![rgb[0], rgb[1], rgb[2]],
        TextureFormat::R8Unorm => seq![rgb[0]],
    }
}

/// `bytes` with the texel of pixel `p` replaced by `px`.
pub open spec fn with_pixel(bytes: Seq<u8>, p: int, px: Seq<u8>) -> Seq<u8> {
    bytes.subrange(0, p * px.len()) + px + bytes.subrange(p * px.len() + px.len(), bytes.len() as int)
}

/// The color and depth buffers of a surface. Depths are `f32` bit patterns of
/// values in `[0, 1]`, larger meaning nearer; both buffers start zeroed.
pub struct RenderTarget {
    pub surface: RenderSurface,
    /// Row-major texels, top-left origin, tightly packed in the surface format.
    pub frame_buffer: Vec<u8>,
    /// Row-major depths, one per pixel.
    pub depth_buffer: Vec<u32>,
}

impl RenderTarget {
    pub open spec fn pixel_count(&self) -> int {
        self.surface.width * self.surface.height
    }

    /// The buffers have one entry per pixel and every depth lies in `[0, 1]`.
    pub open spec fn wf(&self) -> bool {
        &&& self.depth_buffer@.len() == self.pixel_count()
        &&& self.frame_buffer@.len() == self.pixel_count() * texture_format_size(self.surface.format)
        &&& forall|i: int| 0 <= i < self.depth_buffer@.len() ==> #[trigger] self.depth_buffer@[i] <= F32_ONE_BITS
    }

    /// Zeroed buffers for `surface`.
    pub fn new(surface: RenderSurface) -> (r: Self)
        requires
            surface.width * surface.height * texture_format_size(surface.format) <= usize::MAX,
        ensures
            r.wf(),
            r.surface == surface,
            forall|i: int| 0 <= i < r.frame_buffer@.len() ==> #[trigger] r.frame_buffer@[i] == 0,
            forall|i: int| 0 <= i < r.depth_buffer@.len() ==> #[trigger] r.depth_buffer@[i] == 0,
    {
        let mut r = RenderTarget {
            surface,
            frame_buffer: Vec::new(),
            depth_buffer: Vec::new(),
        };
        r.reset();
        r
    }

    /// Zeroes both buffers, sized to the surface.
    pub fn reset(&mut self)
        requires
            old(self).surface.width * old(self).surface.height * texture_format_size(old(self).surface.format)
                <= usize::MAX,
        ensures
            final(self).wf(),
            final(self).surface == old(self).surface,
            forall|i: int| 0 <= i < final(self).frame_buffer@.len() ==> #[trigger] final(self).frame_buffer@[i] == 0,
            forall|i: int| 0 <= i < final(self).depth_buffer@.len() ==> #[trigger] final(self).depth_buffer@[i] == 0,
    {
        let bpp = self.surface.format.size();
        assert(self.surface.width * self.surface.height <= self.surface.width * self.surface.height * bpp)
            by (nonlinear_arith)
            requires
                bpp >= 1,
        ;
        let pixels = self.surface.width * self.surface.height;
        let bytes = pixels * bpp;
        let mut frame: Vec<u8> = Vec::new();
        let mut i: usize = 0;
        while i < bytes
            invariant
                i <= bytes,
                frame@.len() == i,
                forall|j: int| 0 <= j < i ==> #[trigger] frame@[j] == 0,
            decreases bytes - i,
        {
            frame.push(0);
            i = i + 1;
        }
        let mut depth: Vec<u32> = Vec::new();
        let mut i: usize = 0;
        while i < pixels
            invariant
                i <= pixels,
                depth@.len() == i,
                forall|j: int| 0 <= j < i ==> #[trigger] depth@[j] == 0,
            decreases pixels - i,
        {
            depth.push(0);
            i = i + 1;
        }
        self.frame_buffer = frame;
        self.depth_buffer = depth;
    }

    /// Writes the color `rgb` at pixel `(x, y)`; the depth buffer is left alone.
    pub fn draw_pixel(&mut self, x: usize, y: usize, rgb: [u8; 3])
        requires
            old(self).wf(),
            x < old(self).surface.width,
            y < old(self).surface.height,
        ensures
            final(self).wf(),
            final(self).surface == old(self).surface,
            final(self).depth_buffer@ == old(self).depth_buffer@,
            final(self).frame_buffer@ == with_pixel(
                old(self).frame_buffer@,
                y * old(self).surface.width + x,
                pixel_bytes(old(self).surface.format, rgb),
            ),
    {
        let w = self.surface.width;
        let h = self.surface.height;
        let bpp = self.surface.format.size();
        let _frame_len = self.frame_buffer.len();
        let _pixels = self.depth_buffer.len();
        proof {
            assert(y * w + x < w * h) by (nonlinear_arith)
                requires
                    x < w,
                    y < h,
            ;
            assert((y * w + x) * bpp + bpp <= w * h * bpp) by (nonlinear_arith)
                requires
                    y * w + x < w * h,
            ;
        }
        let p = y * w + x;
        let base = p * bpp;
        let ghost old_frame = self.frame_buffer@;
        let ghost px = pixel_bytes(self.surface.format, rgb);
        match self.surface.format {
            TextureFormat::Rgba8Unorm => {
                self.frame_buffer.set(base, rgb[0]);
                self.frame_buffer.set(base + 1, rgb[1]);
                self.frame_buffer.set(base + 2, rgb[2]);
                self.frame_buffer.set(base + 3, 255);
            },
            TextureFormat::Rgb8Unorm => {
                self.frame_buffer.set(base, rgb[0]);
                self.frame_buffer.set(base + 1, rgb[1]);
                self.frame_buffer.set(base + 2, rgb[2]);
            },
            TextureFormat::R8Unorm => {
                self.frame_buffer.set(base, rgb[0]);
            },
        }
        assert(self.frame_buffer@ =~= with_pixel(old_frame, p as int, px));
    }

    /// Runs the reverse-Z depth test for a fragment of depth `depth` (an `f32`
    /// bit pattern) at pixel `(x, y)`. It passes iff the clamped depth is
    /// strictly greater than the stored one; then the depth and the color are
    /// written. Returns whether it passed.
    pub fn write_fragment(&mut self, x: usize, y: usize, depth: u32, rgb: [u8; 3]) -> (passed: bool)
        requires
            old(self).wf(),
            x < old(self).surface.width,
            y < old(self).surface.height,
        ensures
            final(self).wf(),
            final(self).surface == old(self).surface,
            ({
                let p = y * old(self).surface.width + x;
                let stored = old(self).depth_buffer@[p];
                &&& passed == depth_passes(stored, depth)
                &&& final(self).depth_buffer@ == old(self).depth_buffer@.update(p, depth_step(stored, depth))
                &&& passed ==> final(self).frame_buffer@ == with_pixel(
                    old(self).frame_buffer@,
                    p,
                    pixel_bytes(old(self).surface.format, rgb),
                )
                &&& !passed ==> final(self).frame_buffer@ == old(self).frame_buffer@
            }),
    {
        let w = self.surface.width;
        let _pixels = self.depth_buffer.len();
        proof {
            assert(y * w + x < w * self.surface.height) by (nonlinear_arith)
                requires
                    x < w,
                    y < self.surface.height,
            ;
        }
        let p = y * w + x;
        let stored = self.depth_buffer[p];
        match clamp_depth(depth) {
            Some(d) => {
                if d > stored {
                    self.depth_buffer.set(p, d);
                    self.draw_pixel(x, y, rgb);
                    true
                } else {
                    assert(self.depth_buffer@ =~= self.depth_buffer@.update(p as int, stored));
                    false
                }
            },
            None => {
                assert(self.depth_buffer@ =~= self.depth_buffer@.update(p as int, stored));
                false
            },
        }
    }
}

/// Over the fragments that a pixel receives, in emission order, the stored
/// depth ends as the largest of the clamped depths, or as the initial depth
/// where none is larger: it is at least the initial depth and each clamped
/// depth, and it is the initial depth or one of them.
pub proof fn lemma_depth_is_max(init: u32, frags: Seq<u32>)
    ensures
        depth_after(init, frags) >= init,
        forall|j: int| 0 <= j < frags.len() && (#[trigger] clamped_depth(frags[j])) is Some
            ==> depth_after(init, frags) >= clamped_depth(frags[j])->Some_0,
        depth_after(init, frags) == init || exists|j: int| 0 <= j < frags.len()
            && #[trigger] clamped_depth(frags[j]) == Some(depth_after(init, frags)),
    decreases frags.len(),
{
    if frags.len() > 0 {
        let d = frags.drop_last();
        lemma_depth_is_max(init, d);
        let prev = depth_after(init, d);
        let cur = depth_after(init, frags);
        assert forall|j: int| 0 <= j < frags.len() && (#[trigger] clamped_depth(frags[j])) is Some
            implies cur >= clamped_depth(frags[j])->Some_0 by {
            if j < frags.len() - 1 {
                assert(frags[j] == d[j]);
            }
        }
        if cur != init {
            if cur == prev {
                let j = choose|j: int| 0 <= j < d.len() && #[trigger] clamped_depth(d[j]) == Some(prev);
                assert(frags[j] == d[j]);
            } else {
                assert(clamped_depth(frags[frags.len() - 1]) == Some(cur));
            }
        }
    }
}

} // verus!
