use render_core::commands::DrawCommand;
use render_core::drawer::{DeviceLimits, Drawer, SubmitInfo};
use render_core::geometry::{Drawable, Mesh, Vertex};
use render_core::presenter::Extent;
use render_core::texture::RenderKey;
use render_core::uniform::Mat4;

const LIMITS: DeviceLimits = DeviceLimits {
    min_uniform_buffer_offset_alignment: 256,
    optimal_buffer_copy_pitch_alignment: 256,
};

const EXTENT: Extent = Extent { width: 1024, height: 768 };

fn vtx(px: f32, py: f32) -> Vertex {
    Vertex {
        position: [px.to_bits(), py.to_bits(), 0.0f32.to_bits()],
        color: [1.0f32.to_bits(), 1.0f32.to_bits(), 1.0f32.to_bits()],
        tex_coord: [0.0f32.to_bits(), 0.0f32.to_bits()],
    }
}

fn mat_scaled(s: f32) -> Mat4 {
    let mut m = [0u32; 16];
    m[0] = s.to_bits();
    m[5] = s.to_bits();
    m[10] = s.to_bits();
    m[15] = 1.0f32.to_bits();
    Mat4 { m }
}

fn tri_mesh(base: f32, rendered: bool) -> Mesh {
    Mesh {
        vertices: vec![vtx(base, 0.0), vtx(base + 1.0, 0.0), vtx(base, 1.0)],
        indices: vec![0, 1, 2],
        rendered,
    }
}

fn scene() -> Vec<Drawable> {
    vec![
        Drawable { mesh: tri_mesh(0.0, true), model: mat_scaled(2.0), texture: Some(7) },
        Drawable { mesh: tri_mesh(10.0, true), model: mat_scaled(3.0), texture: None },
        Drawable { mesh: tri_mesh(20.0, true), model: mat_scaled(4.0), texture: Some(7) },
    ]
}

#[test]
fn update_drawables_records_grouped_command_lists() {
    let mut d = Drawer::new(LIMITS, EXTENT, 2);
    assert_eq!(d.stride, 256);
    d.update_drawables(scene()).unwrap();
    assert_eq!(d.command_lists.len(), 2);
    let expected = vec![
        DrawCommand::SetViewport { width: 1024, height: 768 },
        DrawCommand::SetScissor { width: 1024, height: 768 },
        DrawCommand::BindPipeline,
        DrawCommand::BindVertexBuffer,
        DrawCommand::BindIndexBuffer,
        DrawCommand::BeginRenderPass { width: 1024, height: 768 },
        // Untextured group first: the second drawable, at uniform slot 0.
        DrawCommand::BindTextureDescriptor { key: RenderKey::Untextured },
        DrawCommand::BindUniformDescriptors { dynamic_offset: 0 },
        DrawCommand::DrawIndexed { first_index: 3, index_count: 3 },
        // Texture 7 group: the first and third drawables, slots 1 and 2.
        DrawCommand::BindTextureDescriptor { key: RenderKey::Textured(7) },
        DrawCommand::BindUniformDescriptors { dynamic_offset: 256 },
        DrawCommand::DrawIndexed { first_index: 0, index_count: 3 },
        DrawCommand::BindUniformDescriptors { dynamic_offset: 512 },
        DrawCommand::DrawIndexed { first_index: 6, index_count: 3 },
        DrawCommand::EndRenderPass,
    ];
    assert_eq!(d.command_lists[0], expected);
    assert_eq!(d.command_lists[1], expected);
}

#[test]
fn merged_buffers_and_uniform_slots_follow_draw_order() {
    let mut d = Drawer::new(LIMITS, EXTENT, 1);
    d.update_drawables(scene()).unwrap();
    assert_eq!(d.vertex_buffer.len(), 9);
    assert_eq!(d.index_buffer, vec![0, 1, 2, 3, 4, 5, 6, 7, 8]);
    // Draw order is (untextured, textured 7, textured 7): models 3, 2, 4.
    assert_eq!(d.object_buffer.data.len(), 3 * 256);
    assert_eq!(&d.object_buffer.data[0..4], &3.0f32.to_bits().to_le_bytes());
    assert_eq!(&d.object_buffer.data[256..260], &2.0f32.to_bits().to_le_bytes());
    assert_eq!(&d.object_buffer.data[512..516], &4.0f32.to_bits().to_le_bytes());
    // Padding after each matrix is zero.
    for t in 64..256 {
        assert_eq!(d.object_buffer.data[t], 0);
    }
}

#[test]
fn identical_texture_identities_upload_once() {
    let mut d = Drawer::new(LIMITS, EXTENT, 1);
    d.update_drawables(scene()).unwrap();
    // Two drawables share texture 7: exactly one resource exists.
    assert_eq!(d.textures.upload_count(), 1);
    assert_eq!(d.textures.find_slot(7), Some(0));
    // A later pass with the same identity re-uploads nothing.
    d.update_drawables(scene()).unwrap();
    assert_eq!(d.textures.upload_count(), 1);
    // A new identity allocates a second resource and keeps the first slot.
    let mut ds = scene();
    ds[1].texture = Some(9);
    d.update_drawables(ds).unwrap();
    assert_eq!(d.textures.upload_count(), 2);
    assert_eq!(d.textures.find_slot(7), Some(0));
    assert_eq!(d.textures.find_slot(9), Some(1));
}

#[test]
fn update_drawables_twice_is_bit_identical() {
    let mut d = Drawer::new(LIMITS, EXTENT, 3);
    d.update_drawables(scene()).unwrap();
    let lists_first = d.command_lists.clone();
    let vertices_first = d.vertex_buffer.clone();
    let indices_first = d.index_buffer.clone();
    let objects_first = d.object_buffer.clone();
    d.update_drawables(scene()).unwrap();
    assert_eq!(d.command_lists, lists_first);
    assert_eq!(d.vertex_buffer, vertices_first);
    assert_eq!(d.index_buffer, indices_first);
    assert_eq!(d.object_buffer, objects_first);
}

#[test]
fn skipped_drawable_emits_no_draw_but_keeps_slots() {
    let mut ds = scene();
    ds[2].mesh.rendered = false;
    let mut d = Drawer::new(LIMITS, EXTENT, 1);
    d.update_drawables(ds).unwrap();
    let cmds = &d.command_lists[0];
    // Two draw calls remain; the skipped drawable contributes none.
    let draws: Vec<&DrawCommand> = cmds
        .iter()
        .filter(|c| matches!(c, DrawCommand::DrawIndexed { .. }))
        .collect();
    assert_eq!(draws.len(), 2);
    // The skipped drawable still owns uniform slot 2: the buffer keeps
    // three slots and the rendered drawables' offsets are unchanged.
    assert_eq!(d.object_buffer.data.len(), 3 * 256);
    assert!(cmds.contains(&DrawCommand::BindUniformDescriptors { dynamic_offset: 0 }));
    assert!(cmds.contains(&DrawCommand::BindUniformDescriptors { dynamic_offset: 256 }));
    assert!(!cmds.contains(&DrawCommand::BindUniformDescriptors { dynamic_offset: 512 }));
}

#[test]
fn camera_uniform_round_trip() {
    let mut d = Drawer::new(LIMITS, EXTENT, 1);
    // A camera 6 units back along +Z looking down -Z: identity rotation
    // block with translation row (0, 0, -6, 1).
    let mut view = [0.0f32; 16];
    view[0] = 1.0;
    view[5] = 1.0;
    view[10] = 1.0;
    view[14] = -6.0;
    view[15] = 1.0;
    let mut proj = [0.0f32; 16];
    proj[0] = 1.81066;
    proj[5] = -2.414213;
    proj[10] = -1.0002;
    proj[11] = -1.0;
    proj[14] = -0.20002;
    let to_mat = |w: &[f32; 16]| {
        let mut m = [0u32; 16];
        for i in 0..16 {
            m[i] = w[i].to_bits();
        }
        Mat4 { m }
    };
    let vm = to_mat(&view);
    let pm = to_mat(&proj);
    d.update_camera(vm, pm).unwrap();
    assert_eq!(d.camera_buffer.data.len(), 128);
    assert_eq!(d.camera_view(), vm);
    assert_eq!(d.camera_proj(), pm);
}

#[test]
fn new_drawer_starts_with_identity_camera() {
    let d = Drawer::new(LIMITS, EXTENT, 1);
    let id = Mat4::identity();
    assert_eq!(d.camera_view(), id);
    assert_eq!(d.camera_proj(), id);
    assert!(d.last_drawables.is_none());
    assert!(d.vertex_buffer.is_empty());
}

#[test]
fn draw_plans_submission_for_the_acquired_image() {
    let mut d = Drawer::new(LIMITS, EXTENT, 3);
    d.update_drawables(scene()).unwrap();
    let windowed = d.draw(2, Some(1), Some(1));
    assert_eq!(
        windowed,
        SubmitInfo {
            image_index: 2,
            fence_index: 2,
            wait_semaphore: Some(1),
            signal_semaphore: Some(1),
        }
    );
    let headless = d.draw(0, None, None);
    assert_eq!(headless.wait_semaphore, None);
    assert_eq!(headless.signal_semaphore, None);
    assert_eq!(headless.image_index, 0);
}

#[test]
fn update_uniforms_writes_in_place_at_padded_offsets() {
    let mut d = Drawer::new(LIMITS, EXTENT, 1);
    d.update_drawables(scene()).unwrap();
    assert_eq!(d.object_buffer.capacity, 3 * 256);
    // Push two fresh model matrices: slots 0 and 1 change, slot 2 keeps
    // its previous contents (the capacity never shrinks or grows).
    let before_third: Vec<u8> = d.object_buffer.data[512..768].to_vec();
    d.update_uniforms(vec![mat_scaled(8.0), mat_scaled(9.0)]).unwrap();
    assert_eq!(d.object_buffer.capacity, 3 * 256);
    assert_eq!(&d.object_buffer.data[0..4], &8.0f32.to_bits().to_le_bytes());
    assert_eq!(&d.object_buffer.data[256..260], &9.0f32.to_bits().to_le_bytes());
    assert_eq!(&d.object_buffer.data[512..768], &before_third[..]);
    // The command lists were not rebuilt by a uniform push.
    assert_eq!(d.command_lists.len(), 1);
}

