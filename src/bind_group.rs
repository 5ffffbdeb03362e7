use crate::error::RenderError;
use crate::format::{texture_format_size, TextureFormat};
use std::collections::HashMap;
use vstd::prelude::*;

verus! {

/// A kind of resource that a bind group can hold.
pub trait BindingType {
}

/// Marks a uniform-buffer binding.
#[derive(Debug, Clone, Copy)]
pub struct Uniform {}

/// Marks a storage-buffer binding.
#[derive(Debug, Clone, Copy)]
pub struct Storage {}

/// A texture sampler. It carries no state yet: sampling is nearest-neighbor
/// with repeat wrapping.
#[derive(Debug, Clone, Copy)]
pub struct Sampler {}

/// A 2D texture: `width * height` texels, row-major, in `format`.
#[derive(Debug, Clone)]
pub struct Texture {
    pub width: u32,
    pub height: u32,
    pub format: TextureFormat,
    pub data: Vec<u8>,
}

impl BindingType for Uniform {
}

impl BindingType for Storage {
}

impl BindingType for Sampler {
}

impl BindingType for Texture {
}

/// The channels `(r, g, b, a)` of the texel whose bytes start at `i`: red is
/// repeated for one-channel textures, and alpha is 255 where the format has
/// none.
pub open spec fn texel_rgba(f: TextureFormat, b: Seq<u8>, i: int) -> Seq<u8> {
    match f {
        TextureFormat::R8Unorm => seq![b[i], b[i], b[i], b[i]],
        TextureFormat::Rgb8Unorm => seq![b[i], b[i + 1], b[i + 2], 255u8],
        TextureFormat::Rgba8Unorm => seq![b[i], b[i + 1], b[i + 2], b[i + 3]],
    }
}

impl Texture {
    /// The data holds exactly one texel per pixel.
    pub open spec fn wf(&self) -> bool {
        self.data@.len() == self.width * self.height * texture_format_size(self.format)
    }

    /// The channels of texel `(x, y)`, widened to four.
    pub fn texel(&self, x: u32, y: u32) -> (r: [u8; 4])
        requires
            self.wf(),
            x < self.width,
            y < self.height,
        ensures
            r@ == texel_rgba(
                self.format,
                self.data@,
                (y * self.width + x) * texture_format_size(self.format),
            ),
    {
        let bpp = self.format.size();
        let len = self.data.len();
        let w = self.width as usize;
        let xs = x as usize;
        let ys = y as usize;
        proof {
            assert(ys * w + xs < w * (self.height as usize)) by (nonlinear_arith)
                requires
                    xs < w,
                    ys < self.height,
            ;
            assert((ys * w + xs) * bpp + bpp <= w * (self.height as usize) * bpp) by (nonlinear_arith)
                requires
                    ys * w + xs < w * (self.height as usize),
            ;
            assert((ys * w + xs) * bpp >= 0) by (nonlinear_arith);
        }
        let i = (ys * w + xs) * bpp;
        let r = match self.format {
            TextureFormat::R8Unorm => [self.data[i], self.data[i], self.data[i], self.data[i]],
            TextureFormat::Rgb8Unorm => [self.data[i], self.data[i + 1], self.data[i + 2], 255u8],
            TextureFormat::Rgba8Unorm => [self.data[i], self.data[i + 1], self.data[i + 2], self.data[i + 3]],
        };
        assert(r@ =~= texel_rgba(self.format, self.data@, i as int));
        r
    }

    /// The texture that a binding holds; an empty texture for any other
    /// binding.
    pub fn from_binding(value: BindType) -> (r: Texture)
        ensures
            value is Texture ==> r == value->Texture_0,
            !(value is Texture) ==> r.width == 0 && r.height == 0 && r.data@.len() == 0 && r.format
                == TextureFormat::Rgba8Unorm,
    {
        match value {
            BindType::Texture(v) => v,
            _ => Texture::default(),
        }
    }
}

impl Default for Texture {
    fn default() -> (r: Texture)
        ensures
            r.width == 0,
            r.height == 0,
            r.format == TextureFormat::Rgba8Unorm,
            r.data@.len() == 0,
    {
        Texture { width: 0, height: 0, format: TextureFormat::Rgba8Unorm, data: Vec::new() }
    }
}

/// One entry of a bind group.
#[derive(Debug, Clone)]
pub enum BindType {
    /// Uniform bytes; their layout is agreed between host and shader.
    Uniform(Vec<u8>),
    Sampler(Sampler),
    Texture(Texture),
    /// Nothing, or an entry that a shader has taken.
    Empty,
}

impl Default for BindType {
    fn default() -> (r: BindType)
        ensures
            r is Empty,
    {
        BindType::Empty
    }
}

impl From<Texture> for BindType {
    fn from(value: Texture) -> (r: BindType) {
        BindType::Texture(value)
    }
}

impl vstd::std_specs::convert::FromSpecImpl<Texture> for BindType {
    open spec fn obeys_from_spec() -> bool {
        true
    }

    open spec fn from_spec(v: Texture) -> BindType {
        BindType::Texture(v)
    }
}

impl From<Sampler> for BindType {
    fn from(value: Sampler) -> (r: BindType) {
        BindType::Sampler(value)
    }
}

impl vstd::std_specs::convert::FromSpecImpl<Sampler> for BindType {
    open spec fn obeys_from_spec() -> bool {
        true
    }

    open spec fn from_spec(v: Sampler) -> BindType {
        BindType::Sampler(v)
    }
}

impl From<BindType> for Sampler {
    fn from(value: BindType) -> (r: Sampler) {
        Sampler {}
    }
}

impl vstd::std_specs::convert::FromSpecImpl<BindType> for Sampler {
    open spec fn obeys_from_spec() -> bool {
        true
    }

    open spec fn from_spec(v: BindType) -> Sampler {
        Sampler {}
    }
}

/// The entries of one bind group, by position.
pub type BindGroup = Vec<BindType>;

/// Textures by id.
pub struct TextureStorage {
    pub texture_id_map: HashMap<usize, Texture>,
}

impl TextureStorage {
    pub fn new() -> (r: Self)
        ensures
            r.texture_id_map@ == Map::<usize, Texture>::empty(),
    {
        TextureStorage { texture_id_map: HashMap::new() }
    }
}

/// Bind groups by index. Group 0 holds view and light uniforms by
/// convention, 1 the material's bindings, 2 the mesh's.
///
/// A shader takes an entry out, leaving `Empty`, and must put it back before
/// it returns; a later take of the slot fails with `BindingNotRestored`
/// otherwise.
pub struct BindingTable {
    pub groups: Vec<BindGroup>,
}

/// Group `g`, slot `s` exists and holds an entry.
pub open spec fn slot_holds(groups: Seq<BindGroup>, g: int, s: int) -> bool {
    0 <= g < groups.len() && 0 <= s < groups[g]@.len() && !(groups[g]@[s] is Empty)
}

impl BindingTable {
    /// `capacity` empty groups.
    pub fn new(capacity: usize) -> (r: Self)
        ensures
            r.groups@.len() == capacity,
            forall|g: int| 0 <= g < capacity ==> (#[trigger] r.groups@[g])@.len() == 0,
    {
        let mut groups: Vec<BindGroup> = Vec::new();
        let mut i: usize = 0;
        while i < capacity
            invariant
                i <= capacity,
                groups@.len() == i,
                forall|g: int| 0 <= g < i ==> (#[trigger] groups@[g])@.len() == 0,
            decreases capacity - i,
        {
            groups.push(Vec::new());
            i = i + 1;
        }
        BindingTable { groups }
    }

    /// Puts `group` at `index`, replacing the group there.
    pub fn set_bind_group(&mut self, index: usize, group: BindGroup)
        requires
            index < old(self).groups@.len(),
        ensures
            final(self).groups@ == old(self).groups@.update(index as int, group),
    {
        self.groups.set(index, group);
    }

    /// Takes the entry of group `g`, slot `s`, leaving `Empty` there. An
    /// absent or empty slot gives `BindingNotRestored`, the table unchanged.
    pub fn take(&mut self, g: usize, s: usize) -> (r: Result<BindType, RenderError>)
        ensures
            slot_holds(old(self).groups@, g as int, s as int) ==> r is Ok && r->Ok_0 == old(self).groups@[g as int]@[s as int]
                && final(self).groups@.len() == old(self).groups@.len()
                && final(self).groups@[g as int]@ == old(self).groups@[g as int]@.update(s as int, BindType::Empty)
                && forall|q: int| 0 <= q < old(self).groups@.len() && q != g ==> #[trigger] final(self).groups@[q] == old(self).groups@[q],
            !slot_holds(old(self).groups@, g as int, s as int) ==> r == Err::<BindType, RenderError>(RenderError::BindingNotRestored)
                && final(self).groups@ == old(self).groups@,
    {
        if g >= self.groups.len() || s >= self.groups[g].len() {
            return Err(RenderError::BindingNotRestored);
        }
        if matches!(self.groups[g][s], BindType::Empty) {
            return Err(RenderError::BindingNotRestored);
        }
        let mut e = BindType::Empty;
        std::mem::swap(&mut e, &mut self.groups[g][s]);
        Ok(e)
    }

    /// Puts `entry` back into group `g`, slot `s`.
    pub fn restore(&mut self, g: usize, s: usize, entry: BindType)
        requires
            g < old(self).groups@.len(),
            s < old(self).groups@[g as int]@.len(),
        ensures
            final(self).groups@.len() == old(self).groups@.len(),
            final(self).groups@[g as int]@ == old(self).groups@[g as int]@.update(s as int, entry),
            forall|q: int| 0 <= q < old(self).groups@.len() && q != g ==> #[trigger] final(self).groups@[q] == old(self).groups@[q],
    {
        self.groups[g][s] = entry;
    }
}

} // verus!
