use renderer::bind_group::{BindType, BindingTable, Sampler, Texture};
use renderer::error::RenderError;
use renderer::format::{stride_of, TextureFormat, VertexFormat};
use renderer::line::line_pixels;
use renderer::raster::{AreaSign, CullMode, FrontFace, PrimitiveState};
use renderer::target::{clamp_depth, RenderSurface, RenderTarget};
use renderer::vertex::{
    fetch_vertex, fetch_vertices, index_resolution, primitive_assembly_clipping,
    sequential_indices, RawShaderValue,
};

fn f32_bytes(v: &[f32]) -> Vec<u8> {
    v.iter().flat_map(|x| x.to_le_bytes()).collect()
}

fn surface(w: usize, h: usize, format: TextureFormat) -> RenderSurface {
    RenderSurface { width: w, height: h, format }
}

#[test]
fn stride_sums_format_sizes() {
    assert_eq!(stride_of(&[VertexFormat::Float32x3, VertexFormat::Float32x4]), Some(28));
    assert_eq!(stride_of(&[]), Some(0));
}

#[test]
fn fetch_decodes_the_record_of_a_vertex() {
    let buffer = f32_bytes(&[
        -0.5, 0.0, 0.0, 1.0, 0.0, 0.0, 1.0, //
        0.0, -1.0, 0.0, 0.0, 1.0, 0.0, 1.0, //
        0.5, 0.0, 0.0, 0.0, 0.0, 1.0, 1.0,
    ]);
    let layout = [VertexFormat::Float32x3, VertexFormat::Float32x4];
    let vals = fetch_vertex(&buffer, &layout, 1).unwrap();
    assert_eq!(vals.len(), 2);
    match vals[0] {
        RawShaderValue::Vec3(p) => assert_eq!(p.map(f32::from_bits), [0.0, -1.0, 0.0]),
        _ => panic!("position is not a vec3"),
    }
    match vals[1] {
        RawShaderValue::Vec4(c) => assert_eq!(c.map(f32::from_bits), [0.0, 1.0, 0.0, 1.0]),
        _ => panic!("color is not a vec4"),
    }
}

#[test]
fn fetch_scalar_and_vec2() {
    let buffer = f32_bytes(&[3.5, 1.0, 2.0]);
    let vals = fetch_vertex(&buffer, &[VertexFormat::Float32, VertexFormat::Float32x2], 0).unwrap();
    assert!(matches!(vals[0], RawShaderValue::F32(x) if f32::from_bits(x) == 3.5));
    assert!(matches!(vals[1], RawShaderValue::Vec2(v) if v.map(f32::from_bits) == [1.0, 2.0]));
}

#[test]
fn fetch_past_the_buffer_overflows() {
    let buffer = f32_bytes(&[0.0; 6]);
    let layout = [VertexFormat::Float32x3];
    assert!(fetch_vertex(&buffer, &layout, 1).is_ok());
    assert_eq!(fetch_vertex(&buffer, &layout, 2).unwrap_err(), RenderError::BufferOverflow);
    assert_eq!(fetch_vertex(&buffer, &layout, u32::MAX).unwrap_err(), RenderError::BufferOverflow);
}

#[test]
fn fetch_rejects_uint_layout() {
    let buffer = vec![0u8; 64];
    let layout = [VertexFormat::Float32, VertexFormat::Uint32];
    assert_eq!(fetch_vertex(&buffer, &layout, 0).unwrap_err(), RenderError::UnsupportedFormat);
    assert_eq!(fetch_vertices(&buffer, &layout, &[]).unwrap_err(), RenderError::UnsupportedFormat);
}

#[test]
fn fetch_vertices_in_index_order() {
    let buffer = f32_bytes(&[10.0, 20.0, 30.0]);
    let layout = [VertexFormat::Float32];
    let out = fetch_vertices(&buffer, &layout, &[2, 0, 2]).unwrap();
    let xs: Vec<f32> = out
        .iter()
        .map(|v| match v[0] {
            RawShaderValue::F32(x) => f32::from_bits(x),
            _ => panic!("not a scalar"),
        })
        .collect();
    assert_eq!(xs, vec![30.0, 10.0, 30.0]);
    assert_eq!(fetch_vertices(&buffer, &layout, &[0, 3]).unwrap_err(), RenderError::BufferOverflow);
}

#[test]
fn indices_resolve_through_the_index_buffer() {
    let index_buffer = [5u32, 6, 7, 8];
    assert_eq!(index_resolution(&index_buffer, 1, 3), Ok(vec![6, 7]));
    assert_eq!(index_resolution(&index_buffer, 3, 3), Ok(vec![]));
    assert_eq!(index_resolution(&index_buffer, 2, 5), Err(RenderError::BufferOverflow));
    assert_eq!(sequential_indices(2, 5), vec![2, 3, 4]);
    assert_eq!(sequential_indices(5, 2), Vec::<u32>::new());
}

#[test]
fn clipping_rejects_partial_triangle() {
    // a vertex at w = -1 lies outside the clip volume
    assert_eq!(primitive_assembly_clipping(&[true, false, true]), Vec::<usize>::new());
    assert_eq!(
        primitive_assembly_clipping(&[true, true, true, false, true, true, true, true, true, true]),
        vec![0, 2]
    );
}

#[test]
fn new_target_is_zeroed_and_sized() {
    let t = RenderTarget::new(surface(7, 5, TextureFormat::Rgba8Unorm));
    assert_eq!(t.depth_buffer.len(), 35);
    assert_eq!(t.frame_buffer.len(), 140);
    assert!(t.frame_buffer.iter().all(|&b| b == 0));
    assert!(t.depth_buffer.iter().all(|&d| d == 0));
    let t = RenderTarget::new(surface(7, 5, TextureFormat::Rgb8Unorm));
    assert_eq!(t.frame_buffer.len(), 105);
}

#[test]
fn depth_test_reverse_z() {
    let mut t = RenderTarget::new(surface(2, 2, TextureFormat::Rgba8Unorm));
    // the 0.2 quad, then the 0.8 quad, over every pixel
    for y in 0..2 {
        for x in 0..2 {
            assert!(t.write_fragment(x, y, 0.2f32.to_bits(), [10, 10, 10]));
        }
    }
    for y in 0..2 {
        for x in 0..2 {
            assert!(t.write_fragment(x, y, 0.8f32.to_bits(), [200, 100, 50]));
        }
    }
    assert!(t.depth_buffer.iter().all(|&d| f32::from_bits(d) == 0.8));
    assert_eq!(t.frame_buffer, [200, 100, 50, 255].repeat(4));
    // farther and equal depths fail
    assert!(!t.write_fragment(1, 1, 0.5f32.to_bits(), [1, 2, 3]));
    assert!(!t.write_fragment(1, 1, 0.8f32.to_bits(), [1, 2, 3]));
    assert_eq!(t.frame_buffer, [200, 100, 50, 255].repeat(4));
}

#[test]
fn depth_is_clamped_and_nan_fails() {
    assert_eq!(clamp_depth(1.5f32.to_bits()), Some(1.0f32.to_bits()));
    assert_eq!(clamp_depth((-0.5f32).to_bits()), Some(0));
    assert_eq!(clamp_depth((-0.0f32).to_bits()), Some(0));
    assert_eq!(clamp_depth(0.25f32.to_bits()), Some(0.25f32.to_bits()));
    assert_eq!(clamp_depth(f32::NAN.to_bits()), None);
    assert_eq!(clamp_depth(f32::INFINITY.to_bits()), Some(1.0f32.to_bits()));
    let mut t = RenderTarget::new(surface(1, 1, TextureFormat::R8Unorm));
    assert!(!t.write_fragment(0, 0, f32::NAN.to_bits(), [9, 9, 9]));
    assert!(!t.write_fragment(0, 0, (-1.0f32).to_bits(), [9, 9, 9]));
    assert_eq!(t.frame_buffer, vec![0]);
    assert!(t.write_fragment(0, 0, 7.0f32.to_bits(), [9, 8, 7]));
    assert_eq!(f32::from_bits(t.depth_buffer[0]), 1.0);
    assert_eq!(t.frame_buffer, vec![9]);
}

#[test]
fn stored_depth_is_the_largest_passed() {
    let mut t = RenderTarget::new(surface(3, 1, TextureFormat::Rgba8Unorm));
    for d in [0.3f32, 0.7, 0.5, 0.7, 0.1] {
        t.write_fragment(2, 0, d.to_bits(), [1, 1, 1]);
    }
    assert_eq!(f32::from_bits(t.depth_buffer[2]), 0.7);
    assert_eq!(t.depth_buffer[0], 0);
}

#[test]
fn pixels_are_written_row_major() {
    let mut t = RenderTarget::new(surface(3, 2, TextureFormat::Rgb8Unorm));
    t.draw_pixel(1, 1, [4, 5, 6]);
    let mut expected = vec![0u8; 18];
    expected[12..15].copy_from_slice(&[4, 5, 6]);
    assert_eq!(t.frame_buffer, expected);
    t.reset();
    assert!(t.frame_buffer.iter().all(|&b| b == 0));
}

#[test]
fn pixel_bounds_are_clamped_to_the_surface() {
    let s = surface(100, 50, TextureFormat::Rgba8Unorm);
    let r = s.pixel_bounds(-3, 10, 250, 40);
    assert_eq!((r.x0, r.y0, r.x1, r.y1), (0, 10, 100, 40));
    let r = s.pixel_bounds(120, -8, 130, -1);
    assert_eq!((r.x0, r.y0, r.x1, r.y1), (100, 0, 100, 0));
}

#[test]
fn texels_decode_per_format() {
    let r8 = Texture { width: 4, height: 1, format: TextureFormat::R8Unorm, data: vec![0, 64, 128, 255] };
    assert_eq!(r8.texel(1, 0), [64, 64, 64, 64]);
    assert_eq!(r8.texel(3, 0), [255, 255, 255, 255]);
    let rgb = Texture { width: 1, height: 2, format: TextureFormat::Rgb8Unorm, data: vec![1, 2, 3, 4, 5, 6] };
    assert_eq!(rgb.texel(0, 1), [4, 5, 6, 255]);
    let rgba = Texture { width: 2, height: 1, format: TextureFormat::Rgba8Unorm, data: vec![1, 2, 3, 4, 5, 6, 7, 8] };
    assert_eq!(rgba.texel(1, 0), [5, 6, 7, 8]);
}

#[test]
fn bindings_are_taken_and_restored() {
    let mut table = BindingTable::new(3);
    let tex = Texture { width: 1, height: 1, format: TextureFormat::R8Unorm, data: vec![7] };
    table.set_bind_group(1, vec![BindType::from(tex), BindType::from(Sampler {})]);
    let taken = table.take(1, 0).unwrap();
    assert!(matches!(table.groups[1][0], BindType::Empty));
    // a second take before restoring fails
    assert_eq!(table.take(1, 0).unwrap_err(), RenderError::BindingNotRestored);
    let texture = Texture::from_binding(taken);
    assert_eq!(texture.data, vec![7]);
    table.restore(1, 0, BindType::Texture(texture));
    assert!(matches!(table.groups[1][0], BindType::Texture(_)));
    assert!(table.take(1, 1).is_ok());
    assert_eq!(table.take(0, 0).unwrap_err(), RenderError::BindingNotRestored);
    assert_eq!(table.take(9, 0).unwrap_err(), RenderError::BindingNotRestored);
    let other = Texture::from_binding(BindType::Uniform(vec![1, 2]));
    assert_eq!((other.width, other.height, other.data.len()), (0, 0, 0));
}

#[test]
fn shallow_line_walks_along_x() {
    let walk = line_pixels(0, 0, 4, 2);
    assert!(!walk.steep);
    assert_eq!(walk.pixels, vec![(0, 0), (1, 0), (2, 1), (3, 1)]);
}

#[test]
fn steep_line_walks_along_y() {
    let walk = line_pixels(0, 0, 1, 3);
    assert!(walk.steep);
    assert_eq!(walk.pixels, vec![(0, 0), (0, 1), (1, 2)]);
}

#[test]
fn reversed_line_walks_down_from_the_upper_end() {
    let walk = line_pixels(4, 0, 0, 2);
    assert!(!walk.steep);
    assert_eq!(walk.pixels, vec![(3, 0), (2, 0), (1, 1), (0, 1)]);
    assert!(line_pixels(5, 5, 5, 5).pixels.is_empty());
}

#[test]
fn degenerate_triangle_is_skipped() {
    // three collinear vertices have zero area
    for state in [
        PrimitiveState::default(),
        PrimitiveState { front_face: FrontFace::Ccw, cull_mode: CullMode::Back },
    ] {
        assert_eq!(state.facing(AreaSign::Zero), None);
    }
}

#[test]
fn facing_follows_winding_and_culling() {
    let default = PrimitiveState::default();
    assert_eq!(default.facing(AreaSign::Positive), Some(true));
    assert_eq!(default.facing(AreaSign::Negative), Some(false));
    let ccw_back = PrimitiveState { front_face: FrontFace::Ccw, cull_mode: CullMode::Back };
    assert_eq!(ccw_back.facing(AreaSign::Positive), None);
    assert_eq!(ccw_back.facing(AreaSign::Negative), Some(true));
    let cw_front = PrimitiveState { front_face: FrontFace::Cw, cull_mode: CullMode::Front };
    assert_eq!(cw_front.facing(AreaSign::Positive), None);
    assert_eq!(cw_front.facing(AreaSign::Negative), Some(false));
}

#[test]
fn line_walk_spans_the_i32_range() {
    let walk = line_pixels(i32::MIN, 0, i32::MIN + 3, 1);
    assert!(!walk.steep);
    assert_eq!(walk.pixels, vec![(i32::MIN, 0), (i32::MIN + 1, 0), (i32::MIN + 2, 1)]);
}

#[test]
fn values_widen_and_narrow() {
    let v = RawShaderValue::Vec2([7, 9]);
    assert_eq!(v.widen(), [7, 9, 0, 0]);
    assert!(matches!(RawShaderValue::narrow([1, 2, 3, 4], VertexFormat::Float32x3), Some(RawShaderValue::Vec3([1, 2, 3]))));
    assert!(matches!(RawShaderValue::narrow([1, 2, 3, 4], VertexFormat::Float32), Some(RawShaderValue::F32(1))));
    assert!(RawShaderValue::narrow([1, 2, 3, 4], VertexFormat::Uint32).is_none());
}
