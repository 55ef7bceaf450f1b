use render_core::geometry::{merge_meshes, vertex_to_bytes, Drawable, Mesh, Vertex};
use render_core::uniform::Mat4;

fn vtx(px: f32, py: f32, pz: f32) -> Vertex {
    Vertex {
        position: [px.to_bits(), py.to_bits(), pz.to_bits()],
        color: [1.0f32.to_bits(), 1.0f32.to_bits(), 1.0f32.to_bits()],
        tex_coord: [0.0f32.to_bits(), 0.0f32.to_bits()],
    }
}

fn ident() -> Mat4 {
    let mut m = [0u32; 16];
    m[0] = 1.0f32.to_bits();
    m[5] = 1.0f32.to_bits();
    m[10] = 1.0f32.to_bits();
    m[15] = 1.0f32.to_bits();
    Mat4 { m }
}

fn drawable(mesh: Mesh, texture: Option<u64>) -> Drawable {
    Drawable { mesh, model: ident(), texture }
}

#[test]
fn merge_two_meshes_offsets_indices() {
    let m0 = Mesh {
        vertices: vec![vtx(0.0, 0.0, 0.0), vtx(1.0, 0.0, 0.0), vtx(0.0, 1.0, 0.0)],
        indices: vec![0, 1, 2],
        rendered: true,
    };
    let m1 = Mesh {
        vertices: vec![vtx(5.0, 5.0, 5.0), vtx(6.0, 5.0, 5.0)],
        indices: vec![0, 1, 0],
        rendered: true,
    };
    let ds = vec![drawable(m0.clone(), None), drawable(m1.clone(), None)];
    let (vertices, indices) = merge_meshes(&ds);
    assert_eq!(vertices.len(), 5);
    assert_eq!(vertices[0], m0.vertices[0]);
    assert_eq!(vertices[2], m0.vertices[2]);
    assert_eq!(vertices[3], m1.vertices[0]);
    assert_eq!(vertices[4], m1.vertices[1]);
    // Indices of the second mesh are shifted by the first mesh's 3 vertices.
    assert_eq!(indices, vec![0, 1, 2, 3, 4, 3]);
}

#[test]
fn merge_keeps_all_index_values_in_range() {
    let m0 = Mesh {
        vertices: vec![vtx(0.0, 0.0, 0.0), vtx(1.0, 0.0, 0.0)],
        indices: vec![1, 0, 1],
        rendered: true,
    };
    let m1 = Mesh {
        vertices: vec![vtx(2.0, 0.0, 0.0)],
        indices: vec![0, 0],
        rendered: true,
    };
    let m2 = Mesh {
        vertices: vec![vtx(3.0, 0.0, 0.0), vtx(4.0, 0.0, 0.0), vtx(5.0, 0.0, 0.0)],
        indices: vec![2, 1, 0],
        rendered: false,
    };
    let ds = vec![
        drawable(m0, Some(1)),
        drawable(m1, None),
        drawable(m2, Some(2)),
    ];
    let (vertices, indices) = merge_meshes(&ds);
    assert_eq!(vertices.len(), 6);
    assert_eq!(indices.len(), 8);
    for value in &indices {
        assert!((*value as usize) < vertices.len());
    }
    // The non-rendered mesh still contributes its geometry to the buffers.
    assert_eq!(&indices[5..], &[5, 4, 3]);
}

#[test]
fn merge_empty_list_gives_empty_buffers() {
    let ds: Vec<Drawable> = Vec::new();
    let (vertices, indices) = merge_meshes(&ds);
    assert!(vertices.is_empty());
    assert!(indices.is_empty());
}

#[test]
fn vertex_bytes_match_fixed_layout() {
    let v = Vertex {
        position: [1.5f32.to_bits(), 2.5f32.to_bits(), 3.5f32.to_bits()],
        color: [0.25f32.to_bits(), 0.5f32.to_bits(), 0.75f32.to_bits()],
        tex_coord: [0.125f32.to_bits(), 0.875f32.to_bits()],
    };
    let bytes = vertex_to_bytes(&v);
    assert_eq!(bytes.len(), 32);
    // Position at offset 0, color at offset 12, texture coordinate at 24.
    assert_eq!(&bytes[0..4], &1.5f32.to_bits().to_le_bytes());
    assert_eq!(&bytes[8..12], &3.5f32.to_bits().to_le_bytes());
    assert_eq!(&bytes[12..16], &0.25f32.to_bits().to_le_bytes());
    assert_eq!(&bytes[20..24], &0.75f32.to_bits().to_le_bytes());
    assert_eq!(&bytes[24..28], &0.125f32.to_bits().to_le_bytes());
    assert_eq!(&bytes[28..32], &0.875f32.to_bits().to_le_bytes());
}
