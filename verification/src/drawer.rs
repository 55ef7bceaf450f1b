//! The drawer: resynchronizes the scene's drawable list into GPU-side
//! resources — merged vertex/index buffers, per-object uniform data at
//! device-aligned offsets, a deduplicated texture cache, and one recorded
//! command list per framebuffer — and plans each frame's queue submission.

use crate::commands::{
    build_command_list, build_draw_order, build_items, collect_models, copy_commands, draw_order,
    models_of, spec_commands, spec_items, DrawCommand,
};
use crate::geometry::{
    collect_texture_ids, index_offset, merge_meshes, merged_indices, merged_vertices, mesh_wf,
    meshes_of, texture_ids, vertex_offset, Drawable, Vertex,
};
use crate::presenter::Extent;
use crate::memory::GpuBuffer;
use crate::texture::{ensure_all, TextureCache};
use crate::uniform::{
    build_camera_bytes, build_dynamic_uniform_bytes, camera_bytes, decoded_word, dyn_bytes,
    padded_uniform_stride, spec_padded_stride, Mat4,
};
use vstd::prelude::*;

verus! {

/// The device capabilities the drawer's layout decisions depend on. The
/// uniform alignment is bounded because dynamic uniform offsets are 32-bit
/// values in the binding interface.
#[derive(Clone, Copy, Debug, PartialEq, Eq, Structural)]
pub struct DeviceLimits {
    pub min_uniform_buffer_offset_alignment: u64,
    pub optimal_buffer_copy_pitch_alignment: u64,
}

impl DeviceLimits {
    /// Alignments are at least one, and the uniform alignment leaves dynamic
    /// offsets representable.
    pub open spec fn wf(self) -> bool {
        &&& 1 <= self.min_uniform_buffer_offset_alignment <= 0x1000_0000
        &&& 1 <= self.optimal_buffer_copy_pitch_alignment
    }
}

/// One frame's queue submission, as the embedding must perform it: the
/// acquired image's command buffer and fence, waiting on the acquire
/// semaphore and signaling the present semaphore — or neither semaphore for
/// headless submission.
#[derive(Clone, Copy, Debug, PartialEq, Eq)]
pub struct SubmitInfo {
    pub image_index: usize,
    pub fence_index: usize,
    pub wait_semaphore: Option<usize>,
    pub signal_semaphore: Option<usize>,
}

/// Word `w` of the identity matrix: the bit pattern of float `1.0` on the
/// diagonal, zero elsewhere.
pub open spec fn spec_identity_word(w: int) -> u32 {
    if w % 5 == 0 {
        crate::uniform::F32_ONE_BITS
    } else {
        0u32
    }
}

/// The drawer's state. Configuration (limits, extent, slot count, uniform
/// stride) is fixed at construction; the scene-derived resources are rebuilt
/// wholesale by `update_drawables`.
#[verifier::ext_equal]
pub struct Drawer {
    pub limits: DeviceLimits,
    pub extent: Extent,
    pub slot_count: usize,
    pub stride: u32,
    pub textures: TextureCache,
    pub vertex_buffer: Vec<Vertex>,
    pub index_buffer: Vec<u32>,
    pub camera_buffer: GpuBuffer,
    pub object_buffer: GpuBuffer,
    pub command_lists: Vec<Vec<DrawCommand>>,
    pub last_drawables: Option<Vec<Drawable>>,
}

impl Drawer {
    /// Structural soundness: valid limits, a correctly padded uniform
    /// stride, a camera buffer of exactly two matrices, a duplicate-free
    /// texture cache, and one command list per framebuffer slot.
    pub open spec fn wf(self) -> bool {
        &&& self.limits.wf()
        &&& self.slot_count >= 1
        &&& self.stride as int == spec_padded_stride(self.limits.min_uniform_buffer_offset_alignment)
        &&& self.stride >= 64
        &&& self.camera_buffer.wf()
        &&& self.camera_buffer.capacity == 128
        &&& self.object_buffer.wf()
        &&& self.textures.wf()
        &&& self.command_lists@.len() == self.slot_count
    }

    /// The scene-derived resources agree with the drawable list `ds`, given
    /// the texture cache held `prev_cache` before the resynchronization:
    /// merged geometry buffers, per-object uniforms in draw order at the
    /// padded stride, every referenced texture cached exactly once, and each
    /// framebuffer's command list freshly recorded from the items.
    pub open spec fn scene_synced(self, prev_cache: Seq<u64>, ds: Seq<Drawable>) -> bool {
        let items = spec_items(ds);
        &&& self.vertex_buffer@ == merged_vertices(meshes_of(ds))
        &&& self.index_buffer@ == merged_indices(meshes_of(ds))
        &&& self.textures.view() == ensure_all(prev_cache, texture_ids(ds))
        &&& self.object_buffer.data@ == dyn_bytes(models_of(draw_order(items)), self.stride as int)
        &&& forall|s: int|
            0 <= s < self.command_lists@.len() ==> (#[trigger] self.command_lists@[s])@
                == spec_commands(items, self.stride as int, self.extent.width, self.extent.height)
        &&& (self.last_drawables matches Some(v) && v@ == ds)
    }

    /// A fresh drawer for a device with the given limits, rendering at
    /// `extent` into `slot_count` framebuffers. The camera uniform starts as
    /// a pair of identity matrices, the object uniform with two identity
    /// slots, and no drawables.
    pub fn new(limits: DeviceLimits, extent: Extent, slot_count: usize) -> (d: Drawer)
        requires
            limits.wf(),
            slot_count >= 1,
        ensures
            d.wf(),
            d.limits == limits,
            d.extent == extent,
            d.slot_count == slot_count,
            forall|w: int|
                0 <= w < 16 ==> decoded_word(d.camera_buffer.data@, 0, w) == spec_identity_word(w)
                    && decoded_word(d.camera_buffer.data@, 64, w) == spec_identity_word(w),
            d.textures.view() == Seq::<u64>::empty(),
            d.vertex_buffer@.len() == 0,
            d.index_buffer@.len() == 0,
            d.last_drawables is None,
            forall|s: int| 0 <= s < slot_count ==> (#[trigger] d.command_lists@[s])@.len() == 0,
    {
        let stride64 = padded_uniform_stride(limits.min_uniform_buffer_offset_alignment);
        assert(stride64 <= u32::MAX);
        let stride: u32 = stride64 as u32;
        let view0 = Mat4::identity();
        let proj0 = Mat4::identity();
        let camera = build_camera_bytes(&view0, &proj0);
        let initial_models: Vec<Mat4> = vec![Mat4::identity(), Mat4::identity()];
        let object = build_dynamic_uniform_bytes(&initial_models, stride as usize);
        proof {
            assert forall|w: int| 0 <= w < 16 implies decoded_word(camera@, 0, w)
                == spec_identity_word(w) && decoded_word(camera@, 64, w) == spec_identity_word(
                w,
            ) by {
                crate::uniform::lemma_camera_round_trip(view0, proj0, w);
            }
        }
        let mut lists: Vec<Vec<DrawCommand>> = Vec::new();
        let mut s: usize = 0;
        while s < slot_count
            invariant
                s <= slot_count,
                lists@.len() == s,
                forall|t: int| 0 <= t < s ==> (#[trigger] lists@[t])@.len() == 0,
            decreases slot_count - s,
        {
            lists.push(Vec::new());
            s = s + 1;
        }
        Drawer {
            limits,
            extent,
            slot_count,
            stride,
            textures: TextureCache::new(),
            vertex_buffer: Vec::new(),
            index_buffer: Vec::new(),
            camera_buffer: GpuBuffer::new_with(camera),
            object_buffer: GpuBuffer::new_with(object),
            command_lists: lists,
            last_drawables: None,
        }
    }

    /// Full resynchronization to a new drawable list: recomputes every
    /// per-object uniform (one model matrix per drawable, in draw order),
    /// uploads every missing texture exactly once, rebuilds the merged
    /// vertex/index buffers, and re-records every framebuffer's command
    /// list grouped by texture key. The next submitted frame reflects
    /// exactly this scene.
    pub fn update_drawables(&mut self, drawables: Vec<Drawable>) -> (r: Result<
        (),
        crate::presenter::RenderError,
    >)
        requires
            old(self).wf(),
            forall|k: int|
                0 <= k < drawables@.len() ==> mesh_wf(#[trigger] meshes_of(drawables@)[k]),
            vertex_offset(meshes_of(drawables@), drawables@.len() as int) <= u32::MAX,
            index_offset(meshes_of(drawables@), drawables@.len() as int) <= u32::MAX,
            drawables@.len() * old(self).stride <= u32::MAX,
        ensures
            final(self).wf(),
            r is Ok,
            final(self).scene_synced(old(self).textures.view(), drawables@),
            final(self).limits == old(self).limits,
            final(self).extent == old(self).extent,
            final(self).slot_count == old(self).slot_count,
            final(self).stride == old(self).stride,
            final(self).camera_buffer == old(self).camera_buffer,
    {
        let ghost ds = drawables@;
        let stride: u32 = self.stride;
        let ids = collect_texture_ids(&drawables);
        self.textures.ensure_uploaded(&ids);
        let (vtx, idx) = merge_meshes(&drawables);
        self.vertex_buffer = vtx;
        self.index_buffer = idx;
        let items = build_items(&drawables);
        proof {
            assert(items@.len() == ds.len());
            crate::commands::lemma_draw_order_len(items@);
        }
        let order = build_draw_order(&items);
        let models = collect_models(&order);
        proof {
            assert(models@.len() == ds.len());
            assert(models@.len() * stride <= u32::MAX);
        }
        self.object_buffer = GpuBuffer::new_with(
            build_dynamic_uniform_bytes(&models, stride as usize),
        );
        let cmds = build_command_list(&items, stride, self.extent.width, self.extent.height);
        let mut lists: Vec<Vec<DrawCommand>> = Vec::new();
        let mut s: usize = 0;
        while s < self.slot_count
            invariant
                s <= self.slot_count,
                lists@.len() == s,
                cmds@ == spec_commands(
                    spec_items(ds),
                    stride as int,
                    self.extent.width,
                    self.extent.height,
                ),
                forall|t: int| 0 <= t < s ==> (#[trigger] lists@[t])@ == cmds@,
            decreases self.slot_count - s,
        {
            lists.push(copy_commands(&cmds));
            s = s + 1;
        }
        self.command_lists = lists;
        self.last_drawables = Some(drawables);
        Ok(())
    }

    /// Pushes one model matrix per drawable into the dynamic uniform
    /// buffer, entry `j` at byte offset `j * stride`; bytes past the
    /// written entries and the command lists are untouched. The write must
    /// fit the buffer's allocated capacity, as any mapped-buffer write must.
    pub fn update_uniforms(&mut self, models: Vec<Mat4>) -> (r: Result<
        (),
        crate::presenter::RenderError,
    >)
        requires
            old(self).wf(),
            models@.len() * old(self).stride <= old(self).object_buffer.capacity,
        ensures
            final(self).wf(),
            r is Ok,
            forall|t: int|
                0 <= t < models@.len() * old(self).stride ==> final(self).object_buffer.data@[t]
                    == dyn_bytes(models@, old(self).stride as int)[t],
            forall|t: int|
                models@.len() * old(self).stride <= t < old(self).object_buffer.data@.len()
                    ==> final(self).object_buffer.data@[t] == old(self).object_buffer.data@[t],
            final(self).object_buffer.capacity == old(self).object_buffer.capacity,
            *final(self) == (Drawer { object_buffer: final(self).object_buffer, ..*old(self) }),
    {
        let stride: u32 = self.stride;
        let bytes = build_dynamic_uniform_bytes(&models, stride as usize);
        self.object_buffer.update_data(0, &bytes);
        Ok(())
    }

    /// Uploads a new view/projection matrix pair into the camera uniform
    /// buffer; no command list is rebuilt.
    pub fn update_camera(&mut self, view: Mat4, proj: Mat4) -> (r: Result<
        (),
        crate::presenter::RenderError,
    >)
        requires
            old(self).wf(),
        ensures
            final(self).wf(),
            r is Ok,
            final(self).camera_buffer.data@ == camera_bytes(view, proj),
            *final(self) == (Drawer { camera_buffer: final(self).camera_buffer, ..*old(self) }),
    {
        let bytes = build_camera_bytes(&view, &proj);
        self.camera_buffer.update_data(0, &bytes);
        proof {
            assert(self.camera_buffer.data@ =~= camera_bytes(view, proj));
        }
        Ok(())
    }

    /// The view matrix currently held in the camera uniform buffer.
    pub fn camera_view(&self) -> (m: Mat4)
        requires
            self.wf(),
        ensures
            forall|w: int| 0 <= w < 16 ==> m.m@[w] == decoded_word(self.camera_buffer.data@, 0, w),
    {
        crate::uniform::read_mat_le(&self.camera_buffer.data, 0)
    }

    /// The projection matrix currently held in the camera uniform buffer.
    pub fn camera_proj(&self) -> (m: Mat4)
        requires
            self.wf(),
        ensures
            forall|w: int| 0 <= w < 16 ==> m.m@[w] == decoded_word(self.camera_buffer.data@, 64, w),
    {
        crate::uniform::read_mat_le(&self.camera_buffer.data, 64)
    }

    /// Plans the submission of the acquired image's command buffer: wait on
    /// the acquire semaphore, signal the present semaphore, fence by image.
    /// Either both semaphores are present (windowed presentation) or both
    /// absent (headless submission); any other combination is a usage error
    /// the caller must not make.
    pub fn draw(&self, image_index: usize, acquire_semaphore: Option<usize>, present_semaphore:
        Option<usize>) -> (s: SubmitInfo)
        requires
            self.wf(),
            image_index < self.slot_count,
            acquire_semaphore is Some <==> present_semaphore is Some,
        ensures
            s.image_index == image_index,
            s.image_index < self.command_lists@.len(),
            s.fence_index == image_index,
            s.wait_semaphore == acquire_semaphore,
            s.signal_semaphore == present_semaphore,
    {
        SubmitInfo {
            image_index,
            fence_index: image_index,
            wait_semaphore: acquire_semaphore,
            signal_semaphore: present_semaphore,
        }
    }
}

/// Resynchronizing twice with the identical drawable list is idempotent:
/// the second pass re-uploads no texture and produces bit-identical command
/// lists, geometry buffers and uniform data.
pub proof fn lemma_update_drawables_idempotent(
    d1: Drawer,
    d2: Drawer,
    cache0: Seq<u64>,
    ds: Seq<Drawable>,
)
    requires
        d1.scene_synced(cache0, ds),
        d2.scene_synced(d1.textures.view(), ds),
        d2.stride == d1.stride,
        d2.extent == d1.extent,
        d2.command_lists@.len() == d1.command_lists@.len(),
    ensures
        d2.textures.view() == d1.textures.view(),
        d2.vertex_buffer@ == d1.vertex_buffer@,
        d2.index_buffer@ == d1.index_buffer@,
        d2.object_buffer.data@ == d1.object_buffer.data@,
        forall|s: int|
            0 <= s < d2.command_lists@.len() ==> (#[trigger] d2.command_lists@[s])@
                == d1.command_lists@[s]@,
{
    crate::texture::lemma_ensure_all_idempotent(cache0, texture_ids(ds));
}

} // verus!
