use crate::error::RenderError;
use crate::format::{layout_offset, layout_stride, vertex_format_components, vertex_format_size, VertexFormat};
use std::collections::BTreeMap;
use vstd::prelude::*;
use vstd::std_specs::cmp::OrdSpec;
use vstd::std_specs::iter::IteratorSpec;
use crate::seq_lemmas::{lemma_flatten_element, lemma_flatten_uniform, lemma_flatten_uniform_chunk};

verus! {

broadcast use vstd::std_specs::btree::group_btree_axioms;

/// Bit pattern of the `f32` value `1.0`.
pub const F32_ONE_BITS: u32 = 0x3f80_0000;

/// Mask that clears the sign bit of an `f32` bit pattern.
pub const F32_MAGNITUDE_MASK: u32 = 0x7fff_ffff;

/// Id of the standard joint-weight attribute.
pub const JOINT_WEIGHT_ID: usize = 5;

/// Identifies a vertex attribute; attributes are laid out in ascending id order.
#[derive(Debug, Copy, Clone, PartialEq, Eq, Structural, PartialOrd, Ord, Hash)]
pub struct MeshVertexAttributeId(pub usize);

/// Describes one vertex attribute of a mesh.
#[derive(Debug, Copy, Clone)]
pub struct MeshVertexAttribute {
    /// Human-readable name.
    pub name: &'static str,
    /// Unique id; it also fixes the attribute's place in the vertex record.
    /// Standard attributes use ids close to zero.
    pub id: MeshVertexAttributeId,
    /// Format of one value of the attribute.
    pub format: VertexFormat,
}

impl MeshVertexAttribute {
    pub fn new(name: &'static str, id: usize, format: VertexFormat) -> (r: Self)
        ensures
            r.name == name,
            r.id.0 == id,
            r.format == format,
    {
        MeshVertexAttribute { name, id: MeshVertexAttributeId(id), format }
    }
}

/// The values of one attribute, one array entry per vertex. Float components
/// are held as their IEEE-754 bit patterns (`f32::to_bits`).
#[derive(Clone, Debug)]
pub enum VertexAttributeValues {
    Float32(Vec<u32>),
    Uint32(Vec<u32>),
    Float32x2(Vec<[u32; 2]>),
    Float32x3(Vec<[u32; 3]>),
    Float32x4(Vec<[u32; 4]>),
}

/// The format that a set of values has.
pub open spec fn values_format(v: VertexAttributeValues) -> VertexFormat {
    match v {
        VertexAttributeValues::Float32(_) => VertexFormat::Float32,
        VertexAttributeValues::Uint32(_) => VertexFormat::Uint32,
        VertexAttributeValues::Float32x2(_) => VertexFormat::Float32x2,
        VertexAttributeValues::Float32x3(_) => VertexFormat::Float32x3,
        VertexAttributeValues::Float32x4(_) => VertexFormat::Float32x4,
    }
}

/// The 32-bit components of each vertex's value, vertex by vertex.
pub open spec fn values_words(v: VertexAttributeValues) -> Seq<Seq<u32>> {
    match v {
        VertexAttributeValues::Float32(a) => a@.map_values(|x: u32| seq![x]),
        VertexAttributeValues::Uint32(a) => a@.map_values(|x: u32| seq![x]),
        VertexAttributeValues::Float32x2(a) => a@.map_values(|x: [u32; 2]| x@),
        VertexAttributeValues::Float32x3(a) => a@.map_values(|x: [u32; 3]| x@),
        VertexAttributeValues::Float32x4(a) => a@.map_values(|x: [u32; 4]| x@),
    }
}

/// Little-endian bytes of one 32-bit word.
pub open spec fn word_bytes(w: u32) -> Seq<u8> {
    seq![(w & 0xff) as u8, ((w >> 8u32) & 0xff) as u8, ((w >> 16u32) & 0xff) as u8, ((w >> 24u32) & 0xff) as u8]
}

/// Little-endian bytes of a run of words, in order.
pub open spec fn words_bytes(ws: Seq<u32>) -> Seq<u8>
    decreases ws.len(),
{
    if ws.len() == 0 {
        Seq::empty()
    } else {
        words_bytes(ws.drop_last()) + word_bytes(ws.last())
    }
}

/// The bytes of all values, vertex after vertex.
pub open spec fn values_bytes(words: Seq<Seq<u32>>) -> Seq<u8> {
    Seq::new(words.len(), |i: int| words_bytes(words[i])).flatten()
}

pub proof fn lemma_words_bytes_len(ws: Seq<u32>)
    ensures
        words_bytes(ws).len() == 4 * ws.len(),
    decreases ws.len(),
{
    if ws.len() > 0 {
        lemma_words_bytes_len(ws.drop_last());
    }
}

fn push_word_bytes(out: &mut Vec<u8>, w: u32)
    ensures
        final(out)@ == old(out)@ + word_bytes(w),
{
    out.push((w & 0xff) as u8);
    out.push(((w >> 8u32) & 0xff) as u8);
    out.push(((w >> 16u32) & 0xff) as u8);
    out.push(((w >> 24u32) & 0xff) as u8);
    assert(final(out)@ =~= old(out)@ + word_bytes(w));
}

impl VertexAttributeValues {
    /// Number of vertices that the values cover.
    pub fn len(&self) -> (r: usize)
        ensures
            r == values_words(*self).len(),
    {
        match self {
            VertexAttributeValues::Uint32(v) => v.len(),
            VertexAttributeValues::Float32(v) => v.len(),
            VertexAttributeValues::Float32x2(v) => v.len(),
            VertexAttributeValues::Float32x3(v) => v.len(),
            VertexAttributeValues::Float32x4(v) => v.len(),
        }
    }

    pub fn format(&self) -> (r: VertexFormat)
        ensures
            r == values_format(*self),
    {
        match self {
            VertexAttributeValues::Uint32(_) => VertexFormat::Uint32,
            VertexAttributeValues::Float32(_) => VertexFormat::Float32,
            VertexAttributeValues::Float32x2(_) => VertexFormat::Float32x2,
            VertexAttributeValues::Float32x3(_) => VertexFormat::Float32x3,
            VertexAttributeValues::Float32x4(_) => VertexFormat::Float32x4,
        }
    }

    fn push_value_bytes(&self, out: &mut Vec<u8>, i: usize)
        requires
            i < values_words(*self).len(),
        ensures
            final(out)@ == old(out)@ + words_bytes(values_words(*self)[i as int]),
    {
        reveal_with_fuel(words_bytes, 5);
        match self {
            VertexAttributeValues::Uint32(v) => {
                push_word_bytes(out, v[i]);
                assert(seq![v@[i as int]].drop_last() =~= Seq::<u32>::empty());
            },
            VertexAttributeValues::Float32(v) => {
                push_word_bytes(out, v[i]);
                assert(seq![v@[i as int]].drop_last() =~= Seq::<u32>::empty());
            },
            VertexAttributeValues::Float32x2(v) => {
                let x = v[i];
                push_word_bytes(out, x[0]);
                push_word_bytes(out, x[1]);
                assert(x@.drop_last().drop_last() =~= Seq::<u32>::empty());
                assert(final(out)@ =~= old(out)@ + words_bytes(x@));
            },
            VertexAttributeValues::Float32x3(v) => {
                let x = v[i];
                push_word_bytes(out, x[0]);
                push_word_bytes(out, x[1]);
                push_word_bytes(out, x[2]);
                assert(x@.drop_last().drop_last().drop_last() =~= Seq::<u32>::empty());
                assert(final(out)@ =~= old(out)@ + words_bytes(x@));
            },
            VertexAttributeValues::Float32x4(v) => {
                let x = v[i];
                push_word_bytes(out, x[0]);
                push_word_bytes(out, x[1]);
                push_word_bytes(out, x[2]);
                push_word_bytes(out, x[3]);
                assert(x@.drop_last().drop_last().drop_last().drop_last() =~= Seq::<u32>::empty());
                assert(final(out)@ =~= old(out)@ + words_bytes(x@));
            },
        }
    }

    /// The values as bytes: each component little-endian, vertex after vertex.
    pub fn get_bytes(&self) -> (r: Vec<u8>)
        ensures
            r@ == values_bytes(values_words(*self)),
    {
        let n = self.len();
        let mut out: Vec<u8> = Vec::new();
        let mut i: usize = 0;
        while i < n
            invariant
                n == values_words(*self).len(),
                i <= n,
                out@ == Seq::new(i as nat, |j: int| words_bytes(values_words(*self)[j])).flatten(),
            decreases n - i,
        {
            let ghost f = |j: int| words_bytes(values_words(*self)[j]);
            proof {
                assert(Seq::new((i + 1) as nat, f) =~= Seq::new(i as nat, f).push(f(i as int)));
                Seq::new(i as nat, f).lemma_flatten_push(f(i as int));
            }
            self.push_value_bytes(&mut out, i);
            i = i + 1;
        }
        out
    }
}


/// A mesh attribute as the contracts see it: its descriptor and the
/// components of each vertex's value.
pub type MeshEntry = (MeshVertexAttribute, Seq<Seq<u32>>);

/// Attribute ids strictly ascend.
pub open spec fn entries_sorted(s: Seq<MeshEntry>) -> bool {
    forall|i: int, j: int| 0 <= i < j < s.len() ==> s[i].0.id.0 < s[j].0.id.0
}

/// Each vertex's value has as many components as the attribute's format.
pub open spec fn entries_shaped(s: Seq<MeshEntry>) -> bool {
    forall|k: int, i: int|
        0 <= k < s.len() && 0 <= i < s[k].1.len() ==> (#[trigger] s[k].1[i]).len()
            == vertex_format_components(s[k].0.format)
}

pub open spec fn mesh_wf(s: Seq<MeshEntry>) -> bool {
    entries_sorted(s) && entries_shaped(s)
}

/// The formats of the attributes, in ascending id order.
pub open spec fn mesh_layout(s: Seq<MeshEntry>) -> Seq<VertexFormat> {
    s.map_values(|e: MeshEntry| e.0.format)
}

/// Some attribute has another vertex count than the first.
pub open spec fn is_ragged(s: Seq<MeshEntry>) -> bool {
    exists|k: int| 0 <= k < s.len() && #[trigger] s[k].1.len() != s[0].1.len()
}

/// The vertex count shared by the attributes; zero without attributes.
pub open spec fn mesh_vertex_count(s: Seq<MeshEntry>) -> nat {
    if s.len() == 0 {
        0
    } else {
        s[0].1.len()
    }
}

/// The bytes that attribute `e` contributes to vertex `i`: the `i`-th run of
/// format-size bytes of its values.
pub open spec fn attribute_run(e: MeshEntry, i: int) -> Seq<u8> {
    let sz = vertex_format_size(e.0.format) as int;
    values_bytes(e.1).subrange(i * sz, i * sz + sz)
}

/// The record of vertex `i`: the runs of all attributes, in ascending id order.
pub open spec fn vertex_record(s: Seq<MeshEntry>, i: int) -> Seq<u8> {
    Seq::new(s.len(), |k: int| attribute_run(s[k], i)).flatten()
}

/// The interleaved vertex buffer: the records of all vertices, in order.
pub open spec fn interleaved(s: Seq<MeshEntry>) -> Seq<u8> {
    Seq::new(mesh_vertex_count(s), |i: int| vertex_record(s, i)).flatten()
}

/// A weight whose components are all zero (either sign).
pub open spec fn is_zero_weight(w: Seq<u32>) -> bool {
    forall|j: int| 0 <= j < w.len() ==> #[trigger] w[j] & F32_MAGNITUDE_MASK == 0
}

/// A zero joint weight becomes `(1, 0, 0, 0)`.
pub open spec fn fix_weight(w: Seq<u32>) -> Seq<u32> {
    if is_zero_weight(w) {
        w.update(0, F32_ONE_BITS)
    } else {
        w
    }
}

/// The values that a mesh stores for an attribute: joint weights are fixed.
pub open spec fn stored_words(attribute: MeshVertexAttribute, words: Seq<Seq<u32>>) -> Seq<Seq<u32>> {
    if attribute.id.0 == JOINT_WEIGHT_ID && attribute.format == VertexFormat::Float32x4 {
        words.map_values(|w: Seq<u32>| fix_weight(w))
    } else {
        words
    }
}

/// `s1` holds `e_new` and the entries of `s0` with other ids, and nothing else.
pub open spec fn entries_after_insert(s1: Seq<MeshEntry>, s0: Seq<MeshEntry>, e_new: MeshEntry) -> bool {
    forall|e: MeshEntry| s1.contains(e) <==> (e == e_new || (s0.contains(e) && e.0.id.0 != e_new.0.id.0))
}

/// An attribute's descriptor together with its values.
#[derive(Clone, Debug)]
pub struct MeshAttributeData {
    pub attribute: MeshVertexAttribute,
    pub values: VertexAttributeValues,
}

/// An attribute as the contracts see it.
pub open spec fn entry_of(d: MeshAttributeData) -> MeshEntry {
    (d.attribute, values_words(d.values))
}

/// `s` lists the attributes of `m` in ascending id order, each stored under
/// its own id.
pub open spec fn lists_map(s: Seq<MeshEntry>, m: Map<usize, MeshAttributeData>) -> bool {
    &&& entries_sorted(s)
    &&& forall|i: int|
        0 <= i < s.len() ==> m.contains_key(#[trigger] s[i].0.id.0) && entry_of(m[s[i].0.id.0]) == s[i]
    &&& forall|k: usize| #[trigger]
        m.contains_key(k) ==> exists|i: int| 0 <= i < s.len() && #[trigger] s[i].0.id.0 == k
}

/// Named vertex attributes by id, and the mesh's index list. Iterating the
/// attributes in id order gives the order of the interleaved vertex buffer.
pub struct Mesh {
    attributes: BTreeMap<usize, MeshAttributeData>,
    indices: Vec<u32>,
}

impl View for Mesh {
    type V = Seq<MeshEntry>;

    /// The attributes in ascending id order.
    closed spec fn view(&self) -> Seq<MeshEntry> {
        choose|s: Seq<MeshEntry>| lists_map(s, self.attributes@) && entries_shaped(s)
    }
}

fn fix_joint_weights(a: Vec<[u32; 4]>) -> (r: Vec<[u32; 4]>)
    ensures
        r@.map_values(|x: [u32; 4]| x@) == a@.map_values(|x: [u32; 4]| x@).map_values(
            |w: Seq<u32>| fix_weight(w),
        ),
{
    let mut r: Vec<[u32; 4]> = Vec::new();
    let mut i: usize = 0;
    while i < a.len()
        invariant
            i <= a.len(),
            r@.len() == i,
            forall|j: int| 0 <= j < i ==> (#[trigger] r@[j])@ == fix_weight(a@[j]@),
        decreases a.len() - i,
    {
        let x = a[i];
        let zero = (x[0] & F32_MAGNITUDE_MASK) == 0 && (x[1] & F32_MAGNITUDE_MASK) == 0 && (x[2]
            & F32_MAGNITUDE_MASK) == 0 && (x[3] & F32_MAGNITUDE_MASK) == 0;
        proof {
            if zero {
                assert forall|j: int| 0 <= j < x@.len() implies #[trigger] x@[j] & F32_MAGNITUDE_MASK
                    == 0 by {
                    assert(j == 0 || j == 1 || j == 2 || j == 3);
                }
            } else {
                assert(!is_zero_weight(x@)) by {
                    if (x[0] & F32_MAGNITUDE_MASK) != 0 {
                        assert(x@[0] & F32_MAGNITUDE_MASK != 0);
                    } else if (x[1] & F32_MAGNITUDE_MASK) != 0 {
                        assert(x@[1] & F32_MAGNITUDE_MASK != 0);
                    } else if (x[2] & F32_MAGNITUDE_MASK) != 0 {
                        assert(x@[2] & F32_MAGNITUDE_MASK != 0);
                    } else {
                        assert(x@[3] & F32_MAGNITUDE_MASK != 0);
                    }
                }
            }
        }
        if zero {
            let y: [u32; 4] = [F32_ONE_BITS, x[1], x[2], x[3]];
            assert(y@ =~= x@.update(0, F32_ONE_BITS));
            r.push(y);
        } else {
            r.push(x);
        }
        i = i + 1;
    }
    assert(r@.map_values(|x: [u32; 4]| x@) =~= a@.map_values(|x: [u32; 4]| x@).map_values(
        |w: Seq<u32>| fix_weight(w),
    ));
    r
}


impl Mesh {
    /// Where the vertex is located in space.
    pub fn attribute_position() -> (r: MeshVertexAttribute)
        ensures
            r.id.0 == 0,
            r.name@ == "Vertex_Position"@,
            r.format == VertexFormat::Float32x3,
    {
        MeshVertexAttribute::new("Vertex_Position", 0, VertexFormat::Float32x3)
    }

    /// The direction the vertex normal is facing in.
    pub fn attribute_normal() -> (r: MeshVertexAttribute)
        ensures
            r.id.0 == 1,
            r.name@ == "Vertex_Normal"@,
            r.format == VertexFormat::Float32x3,
    {
        MeshVertexAttribute::new("Vertex_Normal", 1, VertexFormat::Float32x3)
    }

    /// Texture coordinates of the vertex.
    pub fn attribute_uv_0() -> (r: MeshVertexAttribute)
        ensures
            r.id.0 == 2,
            r.name@ == "Vertex_Uv"@,
            r.format == VertexFormat::Float32x2,
    {
        MeshVertexAttribute::new("Vertex_Uv", 2, VertexFormat::Float32x2)
    }

    /// The direction of the vertex tangent, for normal mapping.
    pub fn attribute_tangent() -> (r: MeshVertexAttribute)
        ensures
            r.id.0 == 3,
            r.name@ == "Vertex_Tangent"@,
            r.format == VertexFormat::Float32x4,
    {
        MeshVertexAttribute::new("Vertex_Tangent", 3, VertexFormat::Float32x4)
    }

    /// Per-vertex color.
    pub fn attribute_color() -> (r: MeshVertexAttribute)
        ensures
            r.id.0 == 4,
            r.name@ == "Vertex_Color"@,
            r.format == VertexFormat::Float32x4,
    {
        MeshVertexAttribute::new("Vertex_Color", 4, VertexFormat::Float32x4)
    }

    /// Per-vertex joint transform weights; a zero weight is stored as `(1, 0, 0, 0)`.
    pub fn attribute_joint_weight() -> (r: MeshVertexAttribute)
        ensures
            r.id.0 == JOINT_WEIGHT_ID,
            r.name@ == "Vertex_JointWeight"@,
            r.format == VertexFormat::Float32x4,
    {
        MeshVertexAttribute::new("Vertex_JointWeight", JOINT_WEIGHT_ID, VertexFormat::Float32x4)
    }

    /// Some sequence lists the attributes with values shaped by their formats.
    pub closed spec fn listed(&self) -> bool {
        exists|s: Seq<MeshEntry>| lists_map(s, self.attributes@) && entries_shaped(s)
    }

    pub open spec fn wf(&self) -> bool {
        mesh_wf(self@) && self.listed()
    }

    /// The index list.
    pub closed spec fn index_list(&self) -> Seq<u32> {
        self.indices@
    }

    pub fn new() -> (r: Self)
        ensures
            r@ == Seq::<MeshEntry>::empty(),
            r.index_list() == Seq::<u32>::empty(),
            r.wf(),
    {
        let r = Mesh { attributes: BTreeMap::new(), indices: Vec::new() };
        proof {
            let e = Seq::<MeshEntry>::empty();
            assert(lists_map(e, r.attributes@) && entries_shaped(e));
            assert(r.listed());
            lemma_lists_unique(r@, e, r.attributes@);
        }
        r
    }

    /// Sets the index list.
    pub fn set_indices(&mut self, indices: Vec<u32>)
        ensures
            final(self)@ == old(self)@,
            final(self).wf() == old(self).wf(),
            final(self).index_list() == indices@,
    {
        self.indices = indices;
    }

    /// The index list.
    pub fn indices(&self) -> (r: &Vec<u32>)
        ensures
            r@ == self.index_list(),
    {
        &self.indices
    }

    /// The attributes in ascending id order.
    fn sorted_attributes(&self) -> (r: Vec<&MeshAttributeData>)
        requires
            self.wf(),
        ensures
            r@.len() == self@.len(),
            forall|i: int| 0 <= i < r@.len() ==> entry_of(*#[trigger] r@[i]) == self@[i],
    {
        let ghost m = self.attributes@;
        let iter = self.attributes.iter();
        let ghost sq = iter.remaining();
        let ghost ks = sq.map_values(|kv: (&usize, &MeshAttributeData)| *kv.0);
        let mut r: Vec<&MeshAttributeData> = Vec::new();
        for kv in it: iter
            invariant
                it.seq() == sq,
                ks == sq.map_values(|kv: (&usize, &MeshAttributeData)| *kv.0),
                r@.len() == it.index(),
                r@.len() <= sq.len(),
                forall|i: int| 0 <= i < r@.len() ==> r@[i] == sq[i].1,
        {
            r.push(kv.1);
        }
        proof {
            let s = Seq::new(sq.len(), |i: int| entry_of(*sq[i].1));
            assert forall|i: int| 0 <= i < sq.len() implies m.contains_key(*sq[i].0) && m[*sq[i].0]
                == *sq[i].1 && (#[trigger] sq[i].1).attribute.id.0 == *sq[i].0 by {
                assert(m.contains_key(*sq[i].0));
                let k = *sq[i].0;
                let j = choose|j: int| 0 <= j < self@.len() && self@[j].0.id.0 == k;
            }
            assert forall|a: int, b: int| 0 <= a < b < s.len() implies s[a].0.id.0 < s[b].0.id.0 by {
                broadcast use vstd::std_specs::btree::axiom_increasing_seq_meaning;
                assert(ks[a].cmp_spec(&ks[b]) is Less);
                assert(sq[a].1.attribute.id.0 == ks[a]);
                assert(sq[b].1.attribute.id.0 == ks[b]);
            }
            assert forall|k: usize| #[trigger] m.contains_key(k) implies exists|i: int|
                0 <= i < s.len() && #[trigger] s[i].0.id.0 == k by {
                assert(sq.contains((&k, &m[k])));
                let i = choose|i: int| 0 <= i < sq.len() && sq[i] == (&k, &m[k]);
                assert(s[i].0.id.0 == k);
            }
            assert(lists_map(s, m));
            lemma_lists_unique(s, self@, m);
            assert forall|i: int| 0 <= i < r@.len() implies entry_of(*#[trigger] r@[i]) == self@[i] by {
                assert(s[i] == self@[i]);
            }
        }
        r
    }

    /// Sets the values of an attribute, replacing those stored under its id.
    /// Values whose format is not the descriptor's are refused.
    pub fn insert_attribute(&mut self, attribute: MeshVertexAttribute, values: VertexAttributeValues) -> (r: Result<(), RenderError>)
        requires
            old(self).wf(),
        ensures
            final(self).wf(),
            values_format(values) != attribute.format ==> r == Err::<(), RenderError>(RenderError::SchemaMismatch)
                && final(self)@ == old(self)@,
            values_format(values) == attribute.format ==> r is Ok && entries_after_insert(
                final(self)@,
                old(self)@,
                (attribute, stored_words(attribute, values_words(values))),
            ),
    {
        let values_format = values.format();
        if values_format != attribute.format {
            return Err(RenderError::SchemaMismatch);
        }
        let ghost words = values_words(values);
        let values = if attribute.id.0 == JOINT_WEIGHT_ID {
            match values {
                VertexAttributeValues::Float32x4(a) => VertexAttributeValues::Float32x4(fix_joint_weights(a)),
                other => other,
            }
        } else {
            values
        };
        let ghost new_e: MeshEntry = (attribute, stored_words(attribute, words));
        assert(values_words(values) =~= stored_words(attribute, words));
        let id = attribute.id.0;
        let ghost s0 = self@;
        let ghost m0 = self.attributes@;
        let entry = MeshAttributeData { attribute, values };
        proof {
            assert forall|q: int| 0 <= q < new_e.1.len() implies (#[trigger] new_e.1[q]).len()
                == vertex_format_components(new_e.0.format) by {
                let v = values_words(values)[q];
                assert(v == new_e.1[q]);
            }
            assert(entry_of(entry) == new_e);
            lemma_sorted_put(s0, new_e);
            lemma_put_lists(s0, m0, entry);
        }
        self.attributes.insert(id, entry);
        proof {
            let s1 = sorted_put(s0, new_e);
            assert(lists_map(s1, self.attributes@) && entries_shaped(s1));
            lemma_lists_unique(self@, s1, self.attributes@);
        }
        Ok(())
    }

    /// The number of vertices, which all attributes must agree on.
    pub fn count_vertices(&self) -> (r: Result<usize, RenderError>)
        requires
            self.wf(),
        ensures
            match r {
                Ok(n) => !is_ragged(self@) && n == mesh_vertex_count(self@),
                Err(e) => e == RenderError::RaggedAttributes && is_ragged(self@),
            },
    {
        let attrs = self.sorted_attributes();
        let len = attrs.len();
        if len == 0 {
            return Ok(0);
        }
        let n = attrs[0].values.len();
        let mut k: usize = 1;
        while k < len
            invariant
                1 <= k <= len,
                len == self@.len(),
                n == self@[0].1.len(),
                attrs@.len() == len,
                forall|i: int| 0 <= i < attrs@.len() ==> entry_of(*#[trigger] attrs@[i]) == self@[i],
                forall|q: int| 0 <= q < k ==> (#[trigger] self@[q]).1.len() == n,
            decreases len - k,
        {
            assert(entry_of(*attrs@[k as int]) == self@[k as int]);
            if attrs[k].values.len() != n {
                assert(self@[k as int].1.len() != self@[0].1.len());
                return Err(RenderError::RaggedAttributes);
            }
            k = k + 1;
        }
        Ok(n)
    }

    /// The vertex data as bytes: for each vertex, the runs of its attributes in
    /// ascending id order.
    pub fn get_vertex_buffer_data(&self) -> (r: Result<Vec<u8>, RenderError>)
        requires
            self.wf(),
        ensures
            match r {
                Ok(b) => !is_ragged(self@) && b@ == interleaved(self@) && b@.len() == mesh_vertex_count(self@)
                    * layout_stride(mesh_layout(self@)),
                Err(e) => e == RenderError::RaggedAttributes && is_ragged(self@),
            },
    {
        let n = match self.count_vertices() {
            Ok(n) => n,
            Err(e) => {
                return Err(e);
            },
        };
        let attrs = self.sorted_attributes();
        let count = attrs.len();
        let mut bytes: Vec<Vec<u8>> = Vec::new();
        let mut k: usize = 0;
        while k < count
            invariant
                k <= count,
                count == self@.len(),
                attrs@.len() == count,
                forall|i: int| 0 <= i < attrs@.len() ==> entry_of(*#[trigger] attrs@[i]) == self@[i],
                bytes@.len() == k,
                forall|q: int| 0 <= q < k ==> (#[trigger] bytes@[q])@ == values_bytes(self@[q].1),
            decreases count - k,
        {
            assert(entry_of(*attrs@[k as int]) == self@[k as int]);
            bytes.push(attrs[k].values.get_bytes());
            k = k + 1;
        }
        let ghost s = self@;
        let mut out: Vec<u8> = Vec::new();
        let mut i: usize = 0;
        while i < n
            invariant
                s == self@,
                mesh_wf(s),
                !is_ragged(s),
                n == mesh_vertex_count(s),
                count == s.len(),
                attrs@.len() == count,
                forall|q: int| 0 <= q < attrs@.len() ==> entry_of(*#[trigger] attrs@[q]) == s[q],
                bytes@.len() == count,
                forall|q: int| 0 <= q < count ==> (#[trigger] bytes@[q])@ == values_bytes(s[q].1),
                i <= n,
                out@ == Seq::new(i as nat, |v: int| vertex_record(s, v)).flatten(),
            decreases n - i,
        {
            let ghost base = out@;
            let mut k: usize = 0;
            while k < count
                invariant
                    s == self@,
                    mesh_wf(s),
                    !is_ragged(s),
                    n == mesh_vertex_count(s),
                    count == s.len(),
                    attrs@.len() == count,
                    forall|q: int| 0 <= q < attrs@.len() ==> entry_of(*#[trigger] attrs@[q]) == s[q],
                    bytes@.len() == count,
                    forall|q: int| 0 <= q < count ==> (#[trigger] bytes@[q])@ == values_bytes(s[q].1),
                    i < n,
                    k <= count,
                    out@ == base + Seq::new(k as nat, |q: int| attribute_run(s[q], i as int)).flatten(),
                decreases count - k,
            {
                assert(entry_of(*attrs@[k as int]) == s[k as int]);
                let sz = attrs[k].attribute.format.size();
                let b = &bytes[k];
                let ghost e = s[k as int];
                proof {
                    assert(e.1.len() == s[0].1.len());
                    assert forall|q: int| 0 <= q < e.1.len() implies (#[trigger] e.1[q]).len()
                        == vertex_format_components(e.0.format) by {
                    }
                    lemma_run_len(e, i as int);
                }
                let blen = b.len();
                assert(sz == vertex_format_size(e.0.format));
                assert(b@ == values_bytes(e.1));
                assert(i * sz + sz <= blen);
                let start = i * sz;
                let ghost mid = out@;
                let mut c: usize = 0;
                while c < sz
                    invariant
                        c <= sz,
                        sz == vertex_format_size(e.0.format),
                        start == i * sz,
                        start + sz <= blen,
                        blen == b@.len(),
                        b@ == values_bytes(e.1),
                        out@ == mid + attribute_run(e, i as int).subrange(0, c as int),
                    decreases sz - c,
                {
                    out.push(b[start + c]);
                    c = c + 1;
                    assert(out@ =~= mid + attribute_run(e, i as int).subrange(0, c as int));
                }
                proof {
                    let f = |q: int| attribute_run(s[q], i as int);
                    assert(attribute_run(e, i as int).subrange(0, sz as int) =~= attribute_run(e, i as int));
                    assert(Seq::new((k + 1) as nat, f) =~= Seq::new(k as nat, f).push(f(k as int)));
                    Seq::new(k as nat, f).lemma_flatten_push(f(k as int));
                    assert(out@ =~= base + Seq::new((k + 1) as nat, f).flatten());
                }
                k = k + 1;
            }
            proof {
                let g = |v: int| vertex_record(s, v);
                assert(Seq::new(count as nat, |q: int| attribute_run(s[q], i as int)) =~= Seq::new(
                    s.len(),
                    |q: int| attribute_run(s[q], i as int),
                ));
                assert(Seq::new((i + 1) as nat, g) =~= Seq::new(i as nat, g).push(g(i as int)));
                Seq::new(i as nat, g).lemma_flatten_push(g(i as int));
            }
            i = i + 1;
        }
        proof {
            lemma_interleaved_len(s);
        }
        Ok(out)
    }

    /// The formats of the attributes, in the order of the interleaved buffer.
    pub fn get_vertex_buffer_layout(&self) -> (r: Vec<VertexFormat>)
        requires
            self.wf(),
        ensures
            r@ == mesh_layout(self@),
    {
        let attrs = self.sorted_attributes();
        let mut r: Vec<VertexFormat> = Vec::new();
        let mut k: usize = 0;
        while k < attrs.len()
            invariant
                k <= self@.len(),
                attrs@.len() == self@.len(),
                forall|i: int| 0 <= i < attrs@.len() ==> entry_of(*#[trigger] attrs@[i]) == self@[i],
                r@ == mesh_layout(self@).subrange(0, k as int),
            decreases self@.len() - k,
        {
            assert(entry_of(*attrs@[k as int]) == self@[k as int]);
            r.push(attrs[k].attribute.format);
            k = k + 1;
            assert(r@ =~= mesh_layout(self@).subrange(0, k as int));
        }
        assert(r@ =~= mesh_layout(self@));
        r
    }
}


/// Two sequences that list the same map are equal.
pub proof fn lemma_lists_unique(s1: Seq<MeshEntry>, s2: Seq<MeshEntry>, m: Map<usize, MeshAttributeData>)
    requires
        lists_map(s1, m),
        lists_map(s2, m),
    ensures
        s1 == s2,
    decreases s1.len(),
{
    if s1.len() == 0 {
        if s2.len() > 0 {
            assert(m.contains_key(s2[0].0.id.0));
        }
        assert(s1 =~= s2);
    } else {
        assert(m.contains_key(s1[s1.len() - 1].0.id.0));
        assert(s2.len() > 0);
        let k1 = s1.last().0.id.0;
        let k2 = s2.last().0.id.0;
        assert(m.contains_key(k1) && m.contains_key(k2));
        let j2 = choose|i: int| 0 <= i < s2.len() && #[trigger] s2[i].0.id.0 == k1;
        let j1 = choose|i: int| 0 <= i < s1.len() && #[trigger] s1[i].0.id.0 == k2;
        if j2 < s2.len() - 1 {
            assert(s2[j2].0.id.0 < s2[s2.len() - 1].0.id.0);
        }
        if j1 < s1.len() - 1 {
            assert(s1[j1].0.id.0 < s1[s1.len() - 1].0.id.0);
        }
        assert(k1 == k2);
        let m1 = m.remove(k1);
        let d1 = s1.drop_last();
        let d2 = s2.drop_last();
        assert forall|i: int| 0 <= i < d1.len() implies m1.contains_key(#[trigger] d1[i].0.id.0) && entry_of(
            m1[d1[i].0.id.0],
        ) == d1[i] by {
            assert(s1[i].0.id.0 < s1[s1.len() - 1].0.id.0);
        }
        assert forall|i: int| 0 <= i < d2.len() implies m1.contains_key(#[trigger] d2[i].0.id.0) && entry_of(
            m1[d2[i].0.id.0],
        ) == d2[i] by {
            assert(s2[i].0.id.0 < s2[s2.len() - 1].0.id.0);
        }
        assert forall|k: usize| #[trigger] m1.contains_key(k) implies exists|i: int|
            0 <= i < d1.len() && #[trigger] d1[i].0.id.0 == k by {
            assert(m.contains_key(k));
            let i = choose|i: int| 0 <= i < s1.len() && #[trigger] s1[i].0.id.0 == k;
            assert(d1[i].0.id.0 == k);
        }
        assert forall|k: usize| #[trigger] m1.contains_key(k) implies exists|i: int|
            0 <= i < d2.len() && #[trigger] d2[i].0.id.0 == k by {
            assert(m.contains_key(k));
            let i = choose|i: int| 0 <= i < s2.len() && #[trigger] s2[i].0.id.0 == k;
            assert(d2[i].0.id.0 == k);
        }
        lemma_lists_unique(d1, d2, m1);
        assert(entry_of(m[k1]) == s1[s1.len() - 1]);
        assert(entry_of(m[k2]) == s2[s2.len() - 1]);
        assert(s1 =~= d1.push(s1.last()));
        assert(s2 =~= d2.push(s2.last()));
    }
}

/// `s` with `e` put at the place of its id, replacing an entry with that id.
pub open spec fn sorted_put(s: Seq<MeshEntry>, e: MeshEntry) -> Seq<MeshEntry>
    decreases s.len(),
{
    if s.len() == 0 {
        seq![e]
    } else if s.last().0.id.0 < e.0.id.0 {
        s.push(e)
    } else if s.last().0.id.0 == e.0.id.0 {
        s.drop_last().push(e)
    } else {
        sorted_put(s.drop_last(), e).push(s.last())
    }
}

/// Putting a well-shaped entry keeps the sequence sorted and shaped.
pub proof fn lemma_sorted_put(s: Seq<MeshEntry>, e: MeshEntry)
    requires
        mesh_wf(s),
        forall|q: int| 0 <= q < e.1.len() ==> (#[trigger] e.1[q]).len() == vertex_format_components(e.0.format),
    ensures
        mesh_wf(sorted_put(s, e)),
        entries_after_insert(sorted_put(s, e), s, e),
    decreases s.len(),
{
    let r = sorted_put(s, e);
    if s.len() == 0 {
        assert forall|x: MeshEntry| r.contains(x) <==> (x == e || (s.contains(x) && x.0.id.0 != e.0.id.0)) by {
            if r.contains(x) {
                assert(r[0] == x);
            }
            if x == e {
                assert(r[0] == x);
            }
        }
    } else {
        let d = s.drop_last();
        let l = s.last();
        assert(s == d.push(l));
        assert(mesh_wf(d));
        if l.0.id.0 < e.0.id.0 {
            assert forall|x: MeshEntry| r.contains(x) <==> (x == e || (s.contains(x) && x.0.id.0 != e.0.id.0)) by {
                if r.contains(x) {
                    let i = choose|i: int| 0 <= i < r.len() && r[i] == x;
                    if i < s.len() {
                        assert(s[i] == x);
                        assert(s[i].0.id.0 <= l.0.id.0);
                    }
                }
                if s.contains(x) {
                    let i = choose|i: int| 0 <= i < s.len() && s[i] == x;
                    assert(r[i] == x);
                }
                if x == e {
                    assert(r[r.len() - 1] == x);
                }
            }
            assert forall|a: int, b: int| 0 <= a < b < r.len() implies r[a].0.id.0 < r[b].0.id.0 by {
                if b == r.len() - 1 && a < s.len() - 1 {
                    assert(s[a].0.id.0 < l.0.id.0);
                }
            }
        } else if l.0.id.0 == e.0.id.0 {
            assert forall|x: MeshEntry| r.contains(x) <==> (x == e || (s.contains(x) && x.0.id.0 != e.0.id.0)) by {
                if r.contains(x) {
                    let i = choose|i: int| 0 <= i < r.len() && r[i] == x;
                    if i < d.len() {
                        assert(s[i] == x);
                        assert(s[i].0.id.0 < l.0.id.0);
                    }
                }
                if s.contains(x) && x.0.id.0 != e.0.id.0 {
                    let i = choose|i: int| 0 <= i < s.len() && s[i] == x;
                    assert(i != s.len() - 1);
                    assert(r[i] == x);
                }
                if x == e {
                    assert(r[r.len() - 1] == x);
                }
            }
            assert forall|a: int, b: int| 0 <= a < b < r.len() implies r[a].0.id.0 < r[b].0.id.0 by {
                if b == r.len() - 1 {
                    assert(s[a].0.id.0 < l.0.id.0);
                }
            }
        } else {
            lemma_sorted_put(d, e);
            let rd = sorted_put(d, e);
            assert(r == rd.push(l));
            assert forall|x: MeshEntry| r.contains(x) <==> (x == e || (s.contains(x) && x.0.id.0 != e.0.id.0)) by {
                if r.contains(x) {
                    let i = choose|i: int| 0 <= i < r.len() && r[i] == x;
                    if i < rd.len() {
                        assert(rd.contains(x));
                        if x != e {
                            let j = choose|j: int| 0 <= j < d.len() && d[j] == x;
                            assert(s[j] == x);
                        }
                    } else {
                        assert(x == l);
                        assert(s[s.len() - 1] == x);
                    }
                }
                if s.contains(x) && x.0.id.0 != e.0.id.0 {
                    let i = choose|i: int| 0 <= i < s.len() && s[i] == x;
                    if i < s.len() - 1 {
                        assert(d[i] == x);
                        assert(d.contains(x));
                        assert(rd.contains(x));
                        let j = choose|j: int| 0 <= j < rd.len() && rd[j] == x;
                        assert(r[j] == x);
                    } else {
                        assert(r[r.len() - 1] == x);
                    }
                }
                if x == e {
                    assert(rd.contains(x));
                    let j = choose|j: int| 0 <= j < rd.len() && rd[j] == x;
                    assert(r[j] == x);
                }
            }
            assert forall|i: int| 0 <= i < rd.len() implies (#[trigger] rd[i]).0.id.0 < l.0.id.0 by {
                let x = rd[i];
                assert(rd.contains(x));
                if x != e {
                    let j = choose|j: int| 0 <= j < d.len() && d[j] == x;
                    assert(s[j] == x);
                }
            }
            assert forall|a: int, b: int| 0 <= a < b < r.len() implies r[a].0.id.0 < r[b].0.id.0 by {
                if b == r.len() - 1 {
                    assert(rd[a].0.id.0 < l.0.id.0);
                } else {
                    assert(r[a] == rd[a] && r[b] == rd[b]);
                }
            }
            assert forall|k: int, q: int| 0 <= k < r.len() && 0 <= q < r[k].1.len() implies (#[trigger] r[k].1[q]).len()
                == vertex_format_components(r[k].0.format) by {
                if k < rd.len() {
                    assert(r[k] == rd[k]);
                }
            }
        }
    }
}

/// The sequence that `sorted_put` gives lists the map after the insert.
pub proof fn lemma_put_lists(s0: Seq<MeshEntry>, m0: Map<usize, MeshAttributeData>, d: MeshAttributeData)
    requires
        lists_map(s0, m0),
        mesh_wf(sorted_put(s0, entry_of(d))),
        entries_after_insert(sorted_put(s0, entry_of(d)), s0, entry_of(d)),
    ensures
        lists_map(sorted_put(s0, entry_of(d)), m0.insert(d.attribute.id.0, d)),
{
    let s1 = sorted_put(s0, entry_of(d));
    let m1 = m0.insert(d.attribute.id.0, d);
    let id = d.attribute.id.0;
    assert forall|i: int| 0 <= i < s1.len() implies m1.contains_key(#[trigger] s1[i].0.id.0) && entry_of(
        m1[s1[i].0.id.0],
    ) == s1[i] by {
        let x = s1[i];
        assert(s1.contains(x));
        if x != entry_of(d) {
            let j = choose|j: int| 0 <= j < s0.len() && s0[j] == x;
            assert(s0[j].0.id.0 == x.0.id.0);
        }
    }
    assert forall|k: usize| #[trigger] m1.contains_key(k) implies exists|i: int|
        0 <= i < s1.len() && #[trigger] s1[i].0.id.0 == k by {
        if k == id {
            assert(s1.contains(entry_of(d)));
            let i = choose|i: int| 0 <= i < s1.len() && s1[i] == entry_of(d);
            assert(s1[i].0.id.0 == k);
        } else {
            assert(m0.contains_key(k));
            let j = choose|j: int| 0 <= j < s0.len() && #[trigger] s0[j].0.id.0 == k;
            assert(s0.contains(s0[j]));
            assert(s1.contains(s0[j]));
            let i = choose|i: int| 0 <= i < s1.len() && s1[i] == s0[j];
            assert(s1[i].0.id.0 == k);
        }
    }
}

/// A run of attribute `e` at a vertex it covers has the format's size.
pub proof fn lemma_run_len(e: MeshEntry, i: int)
    requires
        forall|q: int| 0 <= q < e.1.len() ==> (#[trigger] e.1[q]).len() == vertex_format_components(e.0.format),
        0 <= i < e.1.len(),
    ensures
        i * vertex_format_size(e.0.format) + vertex_format_size(e.0.format) <= values_bytes(e.1).len(),
        attribute_run(e, i).len() == vertex_format_size(e.0.format),
{
    let sz = vertex_format_size(e.0.format);
    let chunks = Seq::new(e.1.len(), |q: int| words_bytes(e.1[q]));
    assert forall|q: int| 0 <= q < chunks.len() implies (#[trigger] chunks[q]).len() == sz by {
        lemma_words_bytes_len(e.1[q]);
    }
    lemma_flatten_uniform_chunk(chunks, sz, i);
}

/// A vertex record is as long as the layout's stride.
pub proof fn lemma_record_len(s: Seq<MeshEntry>, i: int)
    requires
        mesh_wf(s),
        0 <= i,
        forall|k: int| 0 <= k < s.len() ==> i < (#[trigger] s[k]).1.len(),
    ensures
        vertex_record(s, i).len() == layout_stride(mesh_layout(s)),
    decreases s.len(),
{
    if s.len() > 0 {
        let d = s.drop_last();
        assert forall|k: int| 0 <= k < d.len() implies i < (#[trigger] d[k]).1.len() by {
            assert(d[k] == s[k]);
        }
        assert forall|k: int, q: int| 0 <= k < d.len() && 0 <= q < d[k].1.len() implies (#[trigger] d[k].1[q]).len()
            == vertex_format_components(d[k].0.format) by {
            assert(d[k] == s[k]);
        }
        lemma_record_len(d, i);
        let f = |k: int| attribute_run(s[k], i);
        assert(Seq::new(s.len(), f) =~= Seq::new(d.len(), |k: int| attribute_run(d[k], i)).push(f(s.len() - 1)));
        Seq::new(d.len(), |k: int| attribute_run(d[k], i)).lemma_flatten_push(f(s.len() - 1));
        assert(mesh_layout(s).drop_last() =~= mesh_layout(d));
        let e = s.last();
        assert forall|q: int| 0 <= q < e.1.len() implies (#[trigger] e.1[q]).len() == vertex_format_components(e.0.format) by {
            assert(s[s.len() - 1] == e);
        }
        lemma_run_len(e, i);
    }
}

/// The interleaved buffer holds one record of the layout's stride per vertex.
pub proof fn lemma_interleaved_len(s: Seq<MeshEntry>)
    requires
        mesh_wf(s),
        !is_ragged(s),
    ensures
        interleaved(s).len() == mesh_vertex_count(s) * layout_stride(mesh_layout(s)),
{
    let recs = Seq::new(mesh_vertex_count(s), |i: int| vertex_record(s, i));
    assert forall|i: int| 0 <= i < recs.len() implies (#[trigger] recs[i]).len() == layout_stride(mesh_layout(s)) by {
        lemma_record_len(s, i);
    }
    lemma_flatten_uniform(recs, layout_stride(mesh_layout(s)));
}

/// The layout lists the formats in the order in which the interleaved buffer
/// holds the attributes' runs: in the record of vertex `i`, the run of the
/// `k`-th attribute starts at the sum of the sizes of the formats listed
/// before it, and is the `i`-th format-size run of that attribute's bytes.
pub proof fn lemma_layout_slices_interleaved(s: Seq<MeshEntry>, i: int, k: int)
    requires
        mesh_wf(s),
        !is_ragged(s),
        0 <= i < mesh_vertex_count(s),
        0 <= k < s.len(),
    ensures
        mesh_layout(s)[k] == s[k].0.format,
        ({
            let stride = layout_stride(mesh_layout(s)) as int;
            let start = i * stride + layout_offset(mesh_layout(s), k);
            let sz = vertex_format_size(mesh_layout(s)[k]) as int;
            &&& start + sz <= interleaved(s).len()
            &&& interleaved(s).subrange(start, start + sz) == values_bytes(s[k].1).subrange(i * sz, i * sz + sz)
        }),
{
    let stride = layout_stride(mesh_layout(s));
    let recs = Seq::new(mesh_vertex_count(s), |v: int| vertex_record(s, v));
    assert forall|v: int| 0 <= v < recs.len() implies (#[trigger] recs[v]).len() == stride by {
        lemma_record_len(s, v);
    }
    lemma_flatten_uniform_chunk(recs, stride, i);
    let runs = Seq::new(s.len(), |q: int| attribute_run(s[q], i));
    lemma_flatten_element(runs, k);
    let pre = s.subrange(0, k);
    assert(runs.subrange(0, k) =~= Seq::new(pre.len(), |q: int| attribute_run(pre[q], i)));
    assert forall|q: int, w: int| 0 <= q < pre.len() && 0 <= w < pre[q].1.len() implies (#[trigger] pre[q].1[w]).len()
        == vertex_format_components(pre[q].0.format) by {
        assert(pre[q] == s[q]);
    }
    assert forall|q: int| 0 <= q < pre.len() implies i < (#[trigger] pre[q]).1.len() by {
        assert(pre[q] == s[q]);
    }
    lemma_record_len(pre, i);
    assert(mesh_layout(pre) =~= mesh_layout(s).subrange(0, k));
    let e = s[k];
    assert forall|q: int| 0 <= q < e.1.len() implies (#[trigger] e.1[q]).len() == vertex_format_components(e.0.format) by {
    }
    lemma_run_len(e, i);
    let off = layout_offset(mesh_layout(s), k) as int;
    let sz = vertex_format_size(e.0.format) as int;
    let whole = interleaved(s);
    assert(recs[i] == vertex_record(s, i));
    assert(whole.subrange(i * stride + off, i * stride + off + sz) =~= whole.subrange(
        i * stride,
        i * stride + stride,
    ).subrange(off, off + sz));
}

} // verus!
