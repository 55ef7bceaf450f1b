//! Allocation arithmetic: alignment rounding, memory-type selection,
//! staging-buffer layout for image uploads, and descriptor-pool capacity.

use vstd::prelude::*;

verus! {

/// A memory type advertised by the device, reduced to its property flags.
#[derive(Clone, Copy, Debug, PartialEq, Eq, Structural)]
pub struct MemoryType {
    pub properties: u32,
}

/// True when memory type `i` of `types` is admissible for a resource whose
/// requirement bitmask is `type_mask` and which needs property flags `required`.
pub open spec fn memory_type_fits(
    types: Seq<MemoryType>,
    type_mask: u32,
    required: u32,
    i: int,
) -> bool {
    &&& 0 <= i < types.len()
    &&& type_mask & (1u32 << i as u32) != 0
    &&& types[i].properties & required == required
}

/// Selects the first memory type whose requirement bit is set and whose
/// property flags contain all the requested flags; `None` when the device
/// offers no compatible type (a fatal condition for the caller).
pub fn select_memory_type(types: &Vec<MemoryType>, type_mask: u32, required: u32) -> (r: Option<
    usize,
>)
    requires
        types@.len() <= 32,
    ensures
        match r {
            Some(i) => {
                &&& memory_type_fits(types@, type_mask, required, i as int)
                &&& forall|j: int| 0 <= j < i ==> !memory_type_fits(types@, type_mask, required, j)
            },
            None => forall|j: int|
                0 <= j < types@.len() ==> !memory_type_fits(types@, type_mask, required, j),
        },
{
    let mut i: usize = 0;
    while i < types.len()
        invariant
            types@.len() <= 32,
            i <= types@.len(),
            forall|j: int| 0 <= j < i ==> !memory_type_fits(types@, type_mask, required, j),
        decreases types@.len() - i,
    {
        if type_mask & (1u32 << (i as u32)) != 0 && types[i].properties & required == required {
            return Some(i);
        }
        i = i + 1;
    }
    None
}

/// `value` rounded up to the nearest multiple of `align`.
pub open spec fn spec_round_up(value: u64, align: u64) -> int
    recommends
        align >= 1,
{
    ((value + align - 1) / (align as int)) * (align as int)
}

/// Rounds `value` up to the nearest multiple of `align`; the result is the
/// least multiple of `align` that is at least `value`.
pub fn round_up_to_align(value: u64, align: u64) -> (r: u64)
    requires
        align >= 1,
        value + align - 1 <= u64::MAX,
    ensures
        r == spec_round_up(value, align),
        r % align == 0,
        value <= r < value + align,
{
    let sum: u64 = value + (align - 1);
    let q: u64 = sum / align;
    proof {
        let a = align as int;
        let s = sum as int;
        vstd::arithmetic::div_mod::lemma_fundamental_div_mod(s, a);
        assert(s % a < a && s % a >= 0) by {
            vstd::arithmetic::div_mod::lemma_mod_bound(s, a);
        }
        assert((s / a) * a == s - s % a);
        assert(((s / a) * a) % a == 0) by {
            vstd::arithmetic::div_mod::lemma_mod_multiples_basic(s / a, a);
        }
    }
    let r: u64 = q * align;
    r
}

/// Device-local memory, required for sampled images and depth attachments.
pub const MEMORY_DEVICE_LOCAL: u32 = 1;

/// Host-visible memory, required for mapped uniform/staging buffers.
pub const MEMORY_CPU_VISIBLE: u32 = 2;

/// The byte a staging buffer holds at flat position `t`, for an RGBA image of
/// `width` columns whose rows are padded out to `row_pitch` bytes: the pixel
/// byte when `t` falls inside a row's data, zero inside the padding.
pub open spec fn staging_byte(pixels: Seq<u8>, width: u64, row_pitch: u64, t: int) -> u8
    recommends
        row_pitch >= width * 4,
{
    let y = t / (row_pitch as int);
    let x = t % (row_pitch as int);
    if x < width * 4 {
        pixels[y * (width * 4) + x]
    } else {
        0u8
    }
}

/// Lays out decoded RGBA pixels into a staging buffer whose rows are padded
/// to `row_pitch` bytes, as the device's copy-pitch alignment demands: row
/// `y` of the image starts at byte `y * row_pitch`, and padding bytes are
/// zero.
pub fn build_staging_buffer(pixels: &Vec<u8>, width: u32, height: u32, row_pitch: u32) -> (out:
    Vec<u8>)
    requires
        pixels@.len() == width * height * 4,
        row_pitch >= width * 4,
        height * row_pitch <= usize::MAX,
    ensures
        out@.len() == height * row_pitch,
        forall|t: int|
            0 <= t < out@.len() ==> out@[t] == staging_byte(
                pixels@,
                width as u64,
                row_pitch as u64,
                t,
            ),
        forall|y: int, x: int|
            0 <= y < height && 0 <= x < width * 4 ==> #[trigger] out@[y * row_pitch + x]
                == pixels@[y * (width * 4) + x],
{
    let mut out: Vec<u8> = Vec::new();
    let mut y: u32 = 0;
    while y < height
        invariant
            pixels@.len() == width * height * 4,
            row_pitch >= width * 4,
            height * row_pitch <= usize::MAX,
            y <= height,
            out@.len() == y * row_pitch,
            forall|t: int|
                0 <= t < out@.len() ==> out@[t] == staging_byte(
                    pixels@,
                    width as u64,
                    row_pitch as u64,
                    t,
                ),
        decreases height - y,
    {
        let mut x: u32 = 0;
        proof {
            assert((y + 1) * row_pitch <= height * row_pitch) by (nonlinear_arith)
                requires
                    y < height,
                    row_pitch >= 0,
            ;
            assert(y * row_pitch + row_pitch == (y + 1) * row_pitch) by (nonlinear_arith);
        }
        while x < row_pitch
            invariant
                pixels@.len() == width * height * 4,
                row_pitch >= width * 4,
                height * row_pitch <= usize::MAX,
                y < height,
                x <= row_pitch,
                y * row_pitch + row_pitch <= height * row_pitch,
                out@.len() == y * row_pitch + x,
                forall|t: int|
                    0 <= t < out@.len() ==> out@[t] == staging_byte(
                        pixels@,
                        width as u64,
                        row_pitch as u64,
                        t,
                    ),
            decreases row_pitch - x,
        {
            proof {
                vstd::arithmetic::div_mod::lemma_fundamental_div_mod_converse(
                    y * row_pitch + x,
                    row_pitch as int,
                    y as int,
                    x as int,
                );
                if x < width * 4 {
                    assert(y * (width as int * 4) + x < width * height * 4) by (nonlinear_arith)
                        requires
                            0 <= x < width * 4,
                            0 <= y < height,
                    ;
                    assert(y * (width as int * 4) >= 0) by (nonlinear_arith)
                        requires
                            y >= 0,
                            width >= 0,
                    ;
                    assert(width * height * 4 <= height * row_pitch) by (nonlinear_arith)
                        requires
                            row_pitch >= width * 4,
                            height >= 0,
                    ;
                }
            }
            if x < width * 4 {
                let row_bytes: usize = (width as usize) * 4;
                assert(y * row_bytes + x < pixels@.len());
                let p: u8 = pixels[(y as usize) * row_bytes + (x as usize)];
                out.push(p);
            } else {
                out.push(0u8);
            }
            x = x + 1;
        }
        y = y + 1;
    }
    proof {
        assert forall|yy: int, xx: int|
            0 <= yy < height && 0 <= xx < width * 4 implies #[trigger] out@[yy * row_pitch + xx]
            == pixels@[yy * (width as int * 4) + xx] by {
            assert(0 <= yy * row_pitch + xx < out@.len()) by (nonlinear_arith)
                requires
                    0 <= yy < height,
                    0 <= xx < row_pitch,
                    row_pitch >= width * 4,
                    out@.len() == height * row_pitch,
            ;
            vstd::arithmetic::div_mod::lemma_fundamental_div_mod_converse(
                yy * row_pitch + xx,
                row_pitch as int,
                yy,
                xx,
            );
        }
    }
    out
}

/// A typed descriptor pool with a fixed capacity; image/sampler sets and
/// uniform-buffer sets come from distinct pools.
#[derive(Clone, Copy, Debug, PartialEq, Eq, Structural)]
pub struct DescriptorPool {
    pub capacity: usize,
    pub allocated: usize,
}

impl DescriptorPool {
    /// The pool never hands out more sets than its capacity.
    pub open spec fn wf(self) -> bool {
        self.allocated <= self.capacity
    }

    /// A fresh pool for `capacity` descriptor sets.
    pub fn new(capacity: usize) -> (p: DescriptorPool)
        ensures
            p.wf(),
            p.capacity == capacity,
            p.allocated == 0,
    {
        DescriptorPool { capacity, allocated: 0 }
    }

    /// Allocates one descriptor set, returning its handle; `None` once the
    /// pool is exhausted, which the caller treats as fatal (no growth or
    /// eviction strategy exists).
    pub fn allocate_set(&mut self) -> (r: Option<usize>)
        requires
            old(self).wf(),
        ensures
            final(self).wf(),
            final(self).capacity == old(self).capacity,
            old(self).allocated < old(self).capacity ==> r == Some(old(self).allocated)
                && final(self).allocated == old(self).allocated + 1,
            old(self).allocated >= old(self).capacity ==> r is None && *final(self) == *old(self),
    {
        if self.allocated < self.capacity {
            let handle = self.allocated;
            self.allocated = self.allocated + 1;
            Some(handle)
        } else {
            None
        }
    }
}


/// One step of a texture upload's one-shot command buffer.
#[derive(Clone, Copy, Debug, PartialEq, Eq, Structural)]
pub enum TextureUploadStep {
    /// Transition the image from undefined layout to transfer destination.
    BarrierToTransferDst,
    /// Copy the staging buffer's rows into the image.
    CopyBufferToImage,
    /// Transition the image to shader-read-only for sampling.
    BarrierToShaderRead,
}

/// The order a texture upload must record: the copy is bracketed by the two
/// layout-transition barriers.
pub open spec fn texture_upload_order() -> Seq<TextureUploadStep> {
    seq![
        TextureUploadStep::BarrierToTransferDst,
        TextureUploadStep::CopyBufferToImage,
        TextureUploadStep::BarrierToShaderRead,
    ]
}

/// The one-shot command sequence a texture upload records, in order; the
/// caller submits it and waits on its fence before first sampling the image.
pub fn texture_upload_steps() -> (steps: Vec<TextureUploadStep>)
    ensures
        steps@ == texture_upload_order(),
{
    let steps: Vec<TextureUploadStep> = vec![
        TextureUploadStep::BarrierToTransferDst,
        TextureUploadStep::CopyBufferToImage,
        TextureUploadStep::BarrierToShaderRead,
    ];
    proof {
        assert(steps@ =~= texture_upload_order());
    }
    steps
}

/// The staging-row pitch of an RGBA image: the row's byte size rounded up
/// to the device's optimal copy-pitch alignment.
pub fn image_row_pitch(width: u32, pitch_align: u64) -> (p: u64)
    requires
        1 <= pitch_align,
        width * 4 + pitch_align - 1 <= u64::MAX,
    ensures
        p == spec_round_up((width * 4) as u64, pitch_align),
        p % pitch_align == 0,
        width * 4 <= p < width * 4 + pitch_align,
{
    round_up_to_align((width as u64) * 4, pitch_align)
}


/// The CPU-visible contents of an allocated, mapped GPU buffer. The
/// capacity is fixed when the buffer is allocated and never grows; a write
/// must fit within it.
#[derive(Clone, Debug, PartialEq)]
pub struct GpuBuffer {
    pub data: Vec<u8>,
    pub capacity: usize,
}

impl GpuBuffer {
    /// The buffer always holds exactly its allocated capacity.
    pub open spec fn wf(self) -> bool {
        self.data@.len() == self.capacity
    }

    /// Allocates a buffer holding `data`; its capacity is the data's size.
    pub fn new_with(data: Vec<u8>) -> (b: GpuBuffer)
        ensures
            b.wf(),
            b.data@ == data@,
            b.capacity == data@.len(),
    {
        let capacity = data.len();
        GpuBuffer { data, capacity }
    }

    /// Writes `src` into the mapped buffer at `offset`. The write must not
    /// exceed the originally allocated capacity; everything outside the
    /// written range keeps its value.
    pub fn update_data(&mut self, offset: usize, src: &Vec<u8>)
        requires
            old(self).wf(),
            offset + src@.len() <= old(self).capacity,
        ensures
            final(self).wf(),
            final(self).capacity == old(self).capacity,
            final(self).data@.len() == old(self).data@.len(),
            forall|t: int|
                0 <= t < offset ==> final(self).data@[t] == old(self).data@[t],
            forall|t: int|
                offset <= t < offset + src@.len() ==> final(self).data@[t] == src@[t - offset],
            forall|t: int|
                offset + src@.len() <= t < old(self).data@.len() ==> final(self).data@[t] == old(
                    self,
                ).data@[t],
    {
        let mut i: usize = 0;
        while i < src.len()
            invariant
                self.wf(),
                self.capacity == old(self).capacity,
                offset + src@.len() <= self.capacity,
                i <= src@.len(),
                self.data@.len() == old(self).data@.len(),
                forall|t: int| 0 <= t < offset ==> self.data@[t] == old(self).data@[t],
                forall|t: int| offset <= t < offset + i ==> self.data@[t] == src@[t - offset],
                forall|t: int|
                    offset + i <= t < self.data@.len() ==> self.data@[t] == old(self).data@[t],
            decreases src@.len() - i,
        {
            let b = src[i];
            self.data.set(offset + i, b);
            i = i + 1;
        }
    }
}

} // verus!
