use render_core::memory::{
    build_staging_buffer, image_row_pitch, select_memory_type, texture_upload_steps,
    DescriptorPool, MemoryType, TextureUploadStep, MEMORY_CPU_VISIBLE, MEMORY_DEVICE_LOCAL,
};

#[test]
fn memory_type_selection_picks_first_match() {
    let types = vec![
        MemoryType { properties: MEMORY_DEVICE_LOCAL },
        MemoryType { properties: MEMORY_CPU_VISIBLE },
        MemoryType { properties: MEMORY_CPU_VISIBLE | MEMORY_DEVICE_LOCAL },
    ];
    // All types admissible by mask: first CPU-visible type is index 1.
    assert_eq!(select_memory_type(&types, 0b111, MEMORY_CPU_VISIBLE), Some(1));
    // Mask rules out index 1: index 2 is the first remaining CPU-visible.
    assert_eq!(select_memory_type(&types, 0b101, MEMORY_CPU_VISIBLE), Some(2));
    // Device-local: index 0 wins.
    assert_eq!(select_memory_type(&types, 0b111, MEMORY_DEVICE_LOCAL), Some(0));
}

#[test]
fn memory_type_selection_reports_no_match() {
    let types = vec![MemoryType { properties: MEMORY_DEVICE_LOCAL }];
    assert_eq!(select_memory_type(&types, 0b1, MEMORY_CPU_VISIBLE), None);
    assert_eq!(select_memory_type(&types, 0b0, MEMORY_DEVICE_LOCAL), None);
    let empty: Vec<MemoryType> = Vec::new();
    assert_eq!(select_memory_type(&empty, 0xFFFF_FFFF, 0), None);
}

#[test]
fn staging_buffer_pads_rows_to_pitch() {
    // A 2x2 RGBA image with a row pitch of 12 (row data is 8 bytes).
    let pixels: Vec<u8> = (1..=16).collect();
    let out = build_staging_buffer(&pixels, 2, 2, 12);
    assert_eq!(out.len(), 24);
    assert_eq!(&out[0..8], &pixels[0..8]);
    assert_eq!(&out[8..12], &[0, 0, 0, 0]);
    assert_eq!(&out[12..20], &pixels[8..16]);
    assert_eq!(&out[20..24], &[0, 0, 0, 0]);
}

#[test]
fn staging_buffer_without_padding_is_plain_copy() {
    let pixels: Vec<u8> = (0..32).collect();
    let out = build_staging_buffer(&pixels, 4, 2, 16);
    assert_eq!(out, pixels);
}

#[test]
fn row_pitch_rounds_to_copy_alignment() {
    // 100 pixels * 4 bytes = 400, rounded to 256-byte pitch alignment.
    assert_eq!(image_row_pitch(100, 256), 512);
    assert_eq!(image_row_pitch(64, 256), 256);
    assert_eq!(image_row_pitch(64, 1), 256);
}

#[test]
fn texture_upload_brackets_copy_with_barriers() {
    let steps = texture_upload_steps();
    assert_eq!(
        steps,
        vec![
            TextureUploadStep::BarrierToTransferDst,
            TextureUploadStep::CopyBufferToImage,
            TextureUploadStep::BarrierToShaderRead,
        ]
    );
}

#[test]
fn descriptor_pool_exhausts_at_capacity() {
    let mut pool = DescriptorPool::new(2);
    assert_eq!(pool.allocate_set(), Some(0));
    assert_eq!(pool.allocate_set(), Some(1));
    assert_eq!(pool.allocate_set(), None);
    assert_eq!(pool.allocated, 2);
}
