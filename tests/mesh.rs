use renderer::error::RenderError;
use renderer::format::{FormatSize, TextureFormat, VertexFormat};
use renderer::mesh::{Mesh, MeshVertexAttribute, VertexAttributeValues};
use renderer::vertex::{fetch_vertex, RawShaderValue};

fn bits(v: &[f32]) -> Vec<u32> {
    v.iter().map(|x| x.to_bits()).collect()
}

fn le(v: &[u32]) -> Vec<u8> {
    v.iter().flat_map(|w| w.to_le_bytes()).collect()
}

#[test]
fn vertex_format_sizes() {
    assert_eq!(VertexFormat::Float32.size(), 4);
    assert_eq!(VertexFormat::Float32x2.size(), 8);
    assert_eq!(VertexFormat::Float32x3.size(), 12);
    assert_eq!(VertexFormat::Float32x4.size(), 16);
    assert_eq!(VertexFormat::Uint32.size(), 4);
    assert_eq!(FormatSize::size(&VertexFormat::Float32x3), 12);
}

#[test]
fn texture_format_sizes() {
    assert_eq!(TextureFormat::Rgba8Unorm.size(), 4);
    assert_eq!(TextureFormat::Rgb8Unorm.size(), 3);
    assert_eq!(TextureFormat::R8Unorm.size(), 1);
    assert_eq!(TextureFormat::default(), TextureFormat::Rgba8Unorm);
}

#[test]
fn insert_rejects_wrong_format() {
    let mut mesh = Mesh::new();
    let r = mesh.insert_attribute(
        Mesh::attribute_position(),
        VertexAttributeValues::Float32x2(vec![[0, 0]]),
    );
    assert_eq!(r, Err(RenderError::SchemaMismatch));
    assert_eq!(mesh.count_vertices(), Ok(0));
    assert!(mesh.get_vertex_buffer_layout().is_empty());
}

#[test]
fn interleaves_in_ascending_id_order() {
    let mut mesh = Mesh::new();
    // inserted out of id order: uv (2) before position (0)
    let uv = [[0.5f32, 0.25], [1.0, 0.75]];
    let pos = [[1.0f32, 2.0, 3.0], [4.0, 5.0, 6.0]];
    let uv_bits: Vec<[u32; 2]> = uv.iter().map(|p| [p[0].to_bits(), p[1].to_bits()]).collect();
    let pos_bits: Vec<[u32; 3]> =
        pos.iter().map(|p| [p[0].to_bits(), p[1].to_bits(), p[2].to_bits()]).collect();
    assert_eq!(mesh.insert_attribute(Mesh::attribute_uv_0(), VertexAttributeValues::Float32x2(uv_bits)), Ok(()));
    assert_eq!(mesh.insert_attribute(Mesh::attribute_position(), VertexAttributeValues::Float32x3(pos_bits)), Ok(()));
    assert_eq!(mesh.count_vertices(), Ok(2));
    assert_eq!(mesh.get_vertex_buffer_layout(), vec![VertexFormat::Float32x3, VertexFormat::Float32x2]);
    let data = mesh.get_vertex_buffer_data().unwrap();
    let mut expected = Vec::new();
    expected.extend(le(&bits(&[1.0, 2.0, 3.0, 0.5, 0.25])));
    expected.extend(le(&bits(&[4.0, 5.0, 6.0, 1.0, 0.75])));
    assert_eq!(data, expected);
    // one record of 12 + 8 bytes per vertex
    assert_eq!(data.len(), 2 * (12 + 8));
}

#[test]
fn replacing_an_attribute_keeps_one_entry() {
    let mut mesh = Mesh::new();
    let attr = MeshVertexAttribute::new("Custom", 42, VertexFormat::Float32);
    mesh.insert_attribute(attr, VertexAttributeValues::Float32(bits(&[1.0, 2.0]))).unwrap();
    mesh.insert_attribute(attr, VertexAttributeValues::Float32(bits(&[7.0]))).unwrap();
    assert_eq!(mesh.count_vertices(), Ok(1));
    assert_eq!(mesh.get_vertex_buffer_layout(), vec![VertexFormat::Float32]);
    assert_eq!(mesh.get_vertex_buffer_data().unwrap(), le(&bits(&[7.0])));
}

#[test]
fn ragged_attributes_are_reported() {
    let mut mesh = Mesh::new();
    mesh.insert_attribute(
        Mesh::attribute_position(),
        VertexAttributeValues::Float32x3(vec![[0, 0, 0], [0, 0, 0]]),
    )
    .unwrap();
    mesh.insert_attribute(Mesh::attribute_color(), VertexAttributeValues::Float32x4(vec![[0, 0, 0, 0]]))
        .unwrap();
    assert_eq!(mesh.count_vertices(), Err(RenderError::RaggedAttributes));
    assert_eq!(mesh.get_vertex_buffer_data(), Err(RenderError::RaggedAttributes));
}

#[test]
fn zero_joint_weights_become_unit_weights() {
    let mut mesh = Mesh::new();
    let zero = [0.0f32.to_bits(), (-0.0f32).to_bits(), 0, 0];
    let some = [0.5f32.to_bits(), 0.5f32.to_bits(), 0, 0];
    mesh.insert_attribute(Mesh::attribute_joint_weight(), VertexAttributeValues::Float32x4(vec![zero, some]))
        .unwrap();
    let data = mesh.get_vertex_buffer_data().unwrap();
    let expected = le(&[1.0f32.to_bits(), (-0.0f32).to_bits(), 0, 0, some[0], some[1], 0, 0]);
    assert_eq!(data, expected);
}

#[test]
fn color_weights_are_kept_as_given() {
    let mut mesh = Mesh::new();
    mesh.insert_attribute(Mesh::attribute_color(), VertexAttributeValues::Float32x4(vec![[0, 0, 0, 0]]))
        .unwrap();
    assert_eq!(mesh.get_vertex_buffer_data().unwrap(), vec![0u8; 16]);
}

#[test]
fn interleaved_length_is_count_times_stride() {
    let mut mesh = Mesh::new();
    mesh.insert_attribute(Mesh::attribute_normal(), VertexAttributeValues::Float32x3(vec![[1, 2, 3]; 3]))
        .unwrap();
    mesh.insert_attribute(Mesh::attribute_tangent(), VertexAttributeValues::Float32x4(vec![[4, 5, 6, 7]; 3]))
        .unwrap();
    mesh.insert_attribute(
        MeshVertexAttribute::new("Weight", 9, VertexFormat::Float32),
        VertexAttributeValues::Float32(vec![8; 3]),
    )
    .unwrap();
    let layout = mesh.get_vertex_buffer_layout();
    let stride: usize = layout.iter().map(|f| f.size()).sum();
    let data = mesh.get_vertex_buffer_data().unwrap();
    assert_eq!(data.len(), mesh.count_vertices().unwrap() * stride);
    // layout order is the slicing order: normal, tangent, weight
    let rec = &data[stride..2 * stride];
    assert_eq!(&rec[0..12], &le(&[1, 2, 3])[..]);
    assert_eq!(&rec[12..28], &le(&[4, 5, 6, 7])[..]);
    assert_eq!(&rec[28..32], &le(&[8])[..]);
}

#[test]
fn uint_attributes_take_four_bytes() {
    let mut mesh = Mesh::new();
    mesh.insert_attribute(
        MeshVertexAttribute::new("Index", 7, VertexFormat::Uint32),
        VertexAttributeValues::Uint32(vec![1, 2]),
    )
    .unwrap();
    mesh.insert_attribute(Mesh::attribute_uv_0(), VertexAttributeValues::Float32x2(vec![[3, 4], [5, 6]]))
        .unwrap();
    assert_eq!(mesh.get_vertex_buffer_layout(), vec![VertexFormat::Float32x2, VertexFormat::Uint32]);
    assert_eq!(mesh.get_vertex_buffer_data().unwrap(), le(&[3, 4, 1, 5, 6, 2]));
}

#[test]
fn mesh_keeps_its_indices() {
    let mut mesh = Mesh::new();
    assert!(mesh.indices().is_empty());
    mesh.set_indices(vec![0, 1, 2, 2, 1, 3]);
    assert_eq!(mesh.indices(), &vec![0, 1, 2, 2, 1, 3]);
}

#[test]
fn standard_attributes_have_stable_names() {
    let attrs = [
        (Mesh::attribute_position(), "Vertex_Position", 0, VertexFormat::Float32x3),
        (Mesh::attribute_normal(), "Vertex_Normal", 1, VertexFormat::Float32x3),
        (Mesh::attribute_uv_0(), "Vertex_Uv", 2, VertexFormat::Float32x2),
        (Mesh::attribute_tangent(), "Vertex_Tangent", 3, VertexFormat::Float32x4),
        (Mesh::attribute_color(), "Vertex_Color", 4, VertexFormat::Float32x4),
        (Mesh::attribute_joint_weight(), "Vertex_JointWeight", 5, VertexFormat::Float32x4),
    ];
    for (a, name, id, format) in attrs {
        assert_eq!(a.name, name);
        assert_eq!(a.id.0, id);
        assert_eq!(a.format, format);
    }
}

#[test]
fn values_report_len_format_and_bytes() {
    let v = VertexAttributeValues::Float32x2(vec![[0x0403_0201, 0x0807_0605]]);
    assert_eq!(v.len(), 1);
    assert_eq!(v.format(), VertexFormat::Float32x2);
    assert_eq!(v.get_bytes(), vec![1, 2, 3, 4, 5, 6, 7, 8]);
}

#[test]
fn vertex_fetch_reads_back_mesh_values() {
    let mut mesh = Mesh::new();
    let pos = vec![[1.0f32, 2.0, 3.0], [4.0, 5.0, 6.0]].iter().map(|p| p.map(f32::to_bits)).collect();
    let col = vec![[0.1f32, 0.2, 0.3, 1.0], [0.4, 0.5, 0.6, 1.0]].iter().map(|c| c.map(f32::to_bits)).collect();
    mesh.insert_attribute(Mesh::attribute_color(), VertexAttributeValues::Float32x4(col)).unwrap();
    mesh.insert_attribute(Mesh::attribute_position(), VertexAttributeValues::Float32x3(pos)).unwrap();
    let data = mesh.get_vertex_buffer_data().unwrap();
    let layout = mesh.get_vertex_buffer_layout();
    let vals = fetch_vertex(&data, &layout, 1).unwrap();
    assert!(matches!(vals[0], RawShaderValue::Vec3(p) if p.map(f32::from_bits) == [4.0, 5.0, 6.0]));
    assert!(matches!(vals[1], RawShaderValue::Vec4(c) if c.map(f32::from_bits) == [0.4, 0.5, 0.6, 1.0]));
}
