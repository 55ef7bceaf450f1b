use render_core::memory::round_up_to_align;
use render_core::uniform::{
    build_camera_bytes, build_dynamic_uniform_bytes, padded_uniform_stride, read_mat_le, Mat4,
};

fn mat_of(values: [f32; 16]) -> Mat4 {
    let mut m = [0u32; 16];
    for (i, v) in values.iter().enumerate() {
        m[i] = v.to_bits();
    }
    Mat4 { m }
}

#[test]
fn round_up_exact_values() {
    assert_eq!(round_up_to_align(64, 256), 256);
    assert_eq!(round_up_to_align(64, 16), 64);
    assert_eq!(round_up_to_align(7, 8), 8);
    assert_eq!(round_up_to_align(8, 8), 8);
    assert_eq!(round_up_to_align(9, 8), 16);
    assert_eq!(round_up_to_align(123, 1), 123);
    assert_eq!(round_up_to_align(0, 64), 0);
}

#[test]
fn padded_stride_covers_matrix_and_alignment() {
    // A large alignment swallows the matrix size.
    assert_eq!(padded_uniform_stride(256), 256);
    // A small alignment keeps the matrix size.
    assert_eq!(padded_uniform_stride(16), 64);
    assert_eq!(padded_uniform_stride(1), 64);
    // An awkward alignment still yields a multiple that covers 64 bytes.
    let s = padded_uniform_stride(48);
    assert!(s >= 64);
    assert_eq!(s % 48, 0);
    assert_eq!(s, 96);
}

#[test]
fn dynamic_uniform_layout_offsets_and_padding() {
    let a = mat_of([
        1.0, 2.0, 3.0, 4.0, 5.0, 6.0, 7.0, 8.0, 9.0, 10.0, 11.0, 12.0, 13.0, 14.0, 15.0, 16.0,
    ]);
    let b = mat_of([
        -1.0, -2.0, -3.0, -4.0, -5.0, -6.0, -7.0, -8.0, 0.5, 1.5, 2.5, 3.5, 4.5, 5.5, 6.5, 7.5,
    ]);
    let mats = vec![a, b];
    let stride = 80usize;
    let bytes = build_dynamic_uniform_bytes(&mats, stride);
    assert_eq!(bytes.len(), 160);
    // Entry 0 at offset 0, entry 1 at offset 1 * stride.
    assert_eq!(&bytes[0..4], &1.0f32.to_bits().to_le_bytes());
    assert_eq!(&bytes[60..64], &16.0f32.to_bits().to_le_bytes());
    assert_eq!(&bytes[80..84], &(-1.0f32).to_bits().to_le_bytes());
    assert_eq!(&bytes[140..144], &7.5f32.to_bits().to_le_bytes());
    // The padding between entries is zeroed.
    for t in 64..80 {
        assert_eq!(bytes[t], 0);
        assert_eq!(bytes[80 + t], 0);
    }
}

#[test]
fn camera_bytes_round_trip() {
    let view = mat_of([
        1.0, 0.0, 0.0, 0.0, 0.0, 1.0, 0.0, 0.0, 0.0, 0.0, 1.0, 0.0, 0.0, 0.0, -6.0, 1.0,
    ]);
    let proj = mat_of([
        1.8, 0.0, 0.0, 0.0, 0.0, -2.4, 0.0, 0.0, 0.0, 0.0, -1.0, -1.0, 0.0, 0.0, -0.2, 0.0,
    ]);
    let bytes = build_camera_bytes(&view, &proj);
    assert_eq!(bytes.len(), 128);
    let view_back = read_mat_le(&bytes, 0);
    let proj_back = read_mat_le(&bytes, 64);
    assert_eq!(view_back, view);
    assert_eq!(proj_back, proj);
}

#[test]
fn identity_matrix_words() {
    let id = Mat4::identity();
    for i in 0..16 {
        if i % 5 == 0 {
            assert_eq!(id.m[i], 1.0f32.to_bits());
        } else {
            assert_eq!(id.m[i], 0);
        }
    }
}
