//! The presenter: per-frame image acquisition and presentation against the
//! swapchain, round-robin pairing of acquire/present semaphores, and the
//! recreation protocol that follows a surface loss. The device calls
//! themselves happen in the embedding application, which reports each
//! outcome back into this state machine.

use vstd::prelude::*;

verus! {

/// A surface extent in pixels.
#[derive(Clone, Copy, Debug, PartialEq, Eq, Structural)]
pub struct Extent {
    pub width: u32,
    pub height: u32,
}

/// What the device reported for an image acquisition.
#[derive(Clone, Copy, Debug, PartialEq, Eq, Structural)]
pub enum AcquireOutcome {
    /// The next presentable image's index.
    Image(u32),
    /// The surface is out of date or lost; no image was acquired.
    SurfaceLost,
}

/// What the device reported for a presentation.
#[derive(Clone, Copy, Debug, PartialEq, Eq, Structural)]
pub enum PresentOutcome {
    Presented,
    SurfaceLost,
}

/// Why a presenter operation could not do its work.
#[derive(Clone, Copy, Debug, PartialEq, Eq, Structural)]
pub enum RenderError {
    /// An image was already acquired and not yet presented.
    AlreadyAcquired { image_index: u32 },
    /// Present was asked for while no image was acquired.
    NoImageAcquired,
    /// The surface was lost; the frame is dropped and the swapchain must be
    /// recreated before the next one.
    SurfaceLost,
}

/// One resource rebuilt during swapchain recreation.
#[derive(Clone, Copy, Debug, PartialEq, Eq, Structural)]
pub enum RebuildStep {
    Swapchain,
    RenderPass,
    DepthImage,
    Framebuffers,
    Pipeline,
    Viewport,
}

/// The order in which recreation must rebuild: each step depends on the
/// extent or format negotiated by an earlier one, so the order is
/// load-bearing.
pub open spec fn recreation_order() -> Seq<RebuildStep> {
    seq![
        RebuildStep::Swapchain,
        RebuildStep::RenderPass,
        RebuildStep::DepthImage,
        RebuildStep::Framebuffers,
        RebuildStep::Pipeline,
        RebuildStep::Viewport,
    ]
}

/// The recreation plan the embedding must execute, in order, when the
/// presenter asks for recreation.
pub fn recreation_steps() -> (steps: Vec<RebuildStep>)
    ensures
        steps@ == recreation_order(),
{
    let steps: Vec<RebuildStep> = vec![
        RebuildStep::Swapchain,
        RebuildStep::RenderPass,
        RebuildStep::DepthImage,
        RebuildStep::Framebuffers,
        RebuildStep::Pipeline,
        RebuildStep::Viewport,
    ];
    proof {
        assert(steps@ =~= recreation_order());
    }
    steps
}

/// The presenter's state: the swapchain's slot count and extent, the
/// round-robin semaphore-pair counter, which image (if any) is acquired and
/// unpresented, whether recreation is pending, and the extents the dependent
/// resources were last built at.
#[derive(Clone, Copy, Debug, PartialEq, Eq)]
pub struct Presenter {
    pub slot_count: usize,
    pub last_ref: usize,
    pub acquired: Option<u32>,
    pub pending_recreation: bool,
    pub extent: Extent,
    pub render_pass_extent: Extent,
    pub framebuffer_extent: Extent,
    pub pipeline_extent: Extent,
}

impl Presenter {
    /// There is at least one swapchain image, and while no recreation is
    /// pending, render pass, framebuffers and pipeline were all built at the
    /// swapchain's extent.
    pub open spec fn wf(self) -> bool {
        &&& self.slot_count >= 1
        &&& !self.pending_recreation ==> {
            &&& self.render_pass_extent == self.extent
            &&& self.framebuffer_extent == self.extent
            &&& self.pipeline_extent == self.extent
        }
    }

    /// A fresh presenter over `slot_count` swapchain images at `extent`.
    pub fn new(slot_count: usize, extent: Extent) -> (p: Presenter)
        requires
            slot_count >= 1,
        ensures
            p.wf(),
            p.slot_count == slot_count,
            p.extent == extent,
            p.last_ref == 0,
            p.acquired is None,
            !p.pending_recreation,
    {
        Presenter {
            slot_count,
            last_ref: 0,
            acquired: None,
            pending_recreation: false,
            extent,
            render_pass_extent: extent,
            framebuffer_extent: extent,
            pipeline_extent: extent,
        }
    }

    /// The semaphore-pair slot the next frame uses, and the state after
    /// taking it: a round-robin counter over the slots, independent of which
    /// image index acquisition will return.
    pub open spec fn spec_next_slot(self) -> (Presenter, int) {
        let r: int = if self.last_ref >= self.slot_count {
            0
        } else {
            self.last_ref as int
        };
        (Presenter { last_ref: (r + 1) as usize, ..self }, r)
    }

    /// Takes the next acquire/present semaphore pair, round-robin over the
    /// slots. Acquire semaphores must not be reused while a prior acquire
    /// is still in flight, so this index is deliberately not the image index.
    pub fn next_acq_pre_pair_index(&mut self) -> (r: usize)
        requires
            old(self).wf(),
        ensures
            final(self).wf(),
            r < final(self).slot_count,
            (*final(self), r as int) == old(self).spec_next_slot(),
    {
        if self.last_ref >= self.slot_count {
            self.last_ref = 0;
        }
        let r = self.last_ref;
        self.last_ref = self.last_ref + 1;
        r
    }

    /// The state and result of reporting an acquisition outcome.
    pub open spec fn spec_acquire(self, outcome: AcquireOutcome) -> (Presenter, Result<
        u32,
        RenderError,
    >) {
        match self.acquired {
            Some(prev) => (self, Err(RenderError::AlreadyAcquired { image_index: prev })),
            None => match outcome {
                AcquireOutcome::Image(i) => (
                    Presenter { acquired: Some(i), ..self },
                    Ok(i),
                ),
                AcquireOutcome::SurfaceLost => (
                    Presenter { pending_recreation: true, ..self },
                    Err(RenderError::SurfaceLost),
                ),
            },
        }
    }

    /// Reports the outcome of acquiring the next image. On success the
    /// returned index is the acquired image; on surface loss the frame must
    /// be skipped (nothing may be submitted) and recreation becomes pending.
    /// Acquiring twice without presenting is an error.
    pub fn acquire_image(&mut self, outcome: AcquireOutcome) -> (r: Result<u32, RenderError>)
        requires
            old(self).wf(),
            !old(self).pending_recreation,
            forall|i: u32| outcome == AcquireOutcome::Image(i) ==> i < old(self).slot_count,
        ensures
            final(self).wf(),
            (*final(self), r) == old(self).spec_acquire(outcome),
            r is Ok ==> !final(self).pending_recreation && final(self).acquired == Some(r->Ok_0)
                && r->Ok_0 < final(self).slot_count,
            r is Err ==> final(self).acquired == old(self).acquired,
            outcome == AcquireOutcome::SurfaceLost && old(self).acquired is None
                ==> final(self).pending_recreation && r == Err::<u32, RenderError>(
                RenderError::SurfaceLost,
            ),
    {
        match self.acquired {
            Some(prev) => Err(RenderError::AlreadyAcquired { image_index: prev }),
            None => match outcome {
                AcquireOutcome::Image(i) => {
                    self.acquired = Some(i);
                    Ok(i)
                },
                AcquireOutcome::SurfaceLost => {
                    self.pending_recreation = true;
                    Err(RenderError::SurfaceLost)
                },
            },
        }
    }

    /// The state and result of reporting a presentation outcome.
    pub open spec fn spec_present(self, outcome: PresentOutcome) -> (Presenter, Result<
        (),
        RenderError,
    >) {
        match self.acquired {
            None => (self, Err(RenderError::NoImageAcquired)),
            Some(_) => match outcome {
                PresentOutcome::Presented => (Presenter { acquired: None, ..self }, Ok(())),
                PresentOutcome::SurfaceLost => (
                    Presenter { acquired: None, pending_recreation: true, ..self },
                    Ok(()),
                ),
            },
        }
    }

    /// Reports the outcome of presenting the acquired image. Presenting
    /// without an acquired image is an error; a surface loss during present
    /// drops the frame and makes recreation pending for the next one.
    pub fn present(&mut self, outcome: PresentOutcome) -> (r: Result<(), RenderError>)
        requires
            old(self).wf(),
        ensures
            final(self).wf(),
            (*final(self), r) == old(self).spec_present(outcome),
            r is Ok <==> old(self).acquired is Some,
            final(self).acquired is None || r is Err,
    {
        match self.acquired {
            None => Err(RenderError::NoImageAcquired),
            Some(_) => {
                self.acquired = None;
                if let PresentOutcome::SurfaceLost = outcome {
                    self.pending_recreation = true;
                }
                Ok(())
            },
        }
    }

    /// Whether the swapchain must be recreated before the next frame.
    pub fn needs_recreation(&self) -> (r: bool)
        ensures
            r == self.pending_recreation,
    {
        self.pending_recreation
    }

    /// The state after recreation at `new_extent` with `new_slot_count`
    /// images.
    pub open spec fn spec_recreate(self, new_extent: Extent, new_slot_count: usize) -> Presenter {
        Presenter {
            slot_count: new_slot_count,
            last_ref: 0,
            acquired: None,
            pending_recreation: false,
            extent: new_extent,
            render_pass_extent: new_extent,
            framebuffer_extent: new_extent,
            pipeline_extent: new_extent,
        }
    }

    /// Recreates the swapchain and everything depending on it at the newly
    /// negotiated extent, after the embedding has waited for the device to
    /// go idle. The returned plan lists the rebuilds the embedding must
    /// perform, in dependency order.
    pub fn recreate(&mut self, new_extent: Extent, new_slot_count: usize) -> (steps: Vec<
        RebuildStep,
    >)
        requires
            old(self).wf(),
            new_slot_count >= 1,
        ensures
            final(self).wf(),
            *final(self) == old(self).spec_recreate(new_extent, new_slot_count),
            !final(self).pending_recreation,
            steps@ == recreation_order(),
    {
        self.slot_count = new_slot_count;
        self.last_ref = 0;
        self.acquired = None;
        self.pending_recreation = false;
        self.extent = new_extent;
        self.render_pass_extent = new_extent;
        self.framebuffer_extent = new_extent;
        self.pipeline_extent = new_extent;
        recreation_steps()
    }
}

/// Swapchain recreation after a surface loss: the losing frame is dropped
/// (acquisition fails, so nothing is submitted) and recreation becomes
/// pending; recreating rebuilds render pass, framebuffers and pipeline at
/// the new extent; only then does acquisition succeed again.
pub proof fn lemma_surface_lost_recovery(
    p: Presenter,
    new_extent: Extent,
    new_slot_count: usize,
    i: u32,
)
    requires
        p.wf(),
        !p.pending_recreation,
        p.acquired is None,
        new_slot_count >= 1,
        i < new_slot_count,
    ensures
        ({
            let (p1, r1) = p.spec_acquire(AcquireOutcome::SurfaceLost);
            &&& r1 is Err
            &&& p1.pending_recreation
            &&& p1.acquired is None
            &&& {
                let p2 = p1.spec_recreate(new_extent, new_slot_count);
                &&& !p2.pending_recreation
                &&& p2.wf()
                &&& p2.extent == new_extent
                &&& p2.render_pass_extent == new_extent
                &&& p2.framebuffer_extent == new_extent
                &&& p2.pipeline_extent == new_extent
                &&& {
                    let (p3, r3) = p2.spec_acquire(AcquireOutcome::Image(i));
                    &&& r3 == Ok::<u32, RenderError>(i)
                    &&& p3.acquired == Some(i)
                }
            }
        }),
{
}


/// A surface loss during presentation drops the frame silently and makes
/// recreation pending for the next one; the acquired image is released
/// either way.
pub proof fn lemma_present_lost_marks_recreation(p: Presenter)
    requires
        p.wf(),
        p.acquired is Some,
    ensures
        ({
            let (p1, r1) = p.spec_present(PresentOutcome::SurfaceLost);
            &&& r1 is Ok
            &&& p1.pending_recreation
            &&& p1.acquired is None
        }),
{
}

/// A surface format the device offers: an opaque format code plus whether
/// its color space is sRGB.
#[derive(Clone, Copy, Debug, PartialEq, Eq, Structural)]
pub struct SurfaceFormat {
    pub code: u32,
    pub srgb: bool,
}

/// The position of the first sRGB format the surface offers, or the list's
/// length when it offers none.
fn first_srgb_pos(fs: &Vec<SurfaceFormat>) -> (p: usize)
    ensures
        p <= fs@.len(),
        forall|j: int| 0 <= j < p ==> !(#[trigger] fs@[j]).srgb,
        p < fs@.len() ==> fs@[p as int].srgb,
{
    let mut i: usize = 0;
    while i < fs.len()
        invariant
            i <= fs@.len(),
            forall|j: int| 0 <= j < i ==> !(#[trigger] fs@[j]).srgb,
        decreases fs@.len() - i,
    {
        if fs[i].srgb {
            return i;
        }
        i = i + 1;
    }
    i
}

/// Picks the swapchain's pixel format from what the surface supports: the
/// first sRGB format if any, else the first offered format. A surface that
/// constrains nothing (`None`) leaves the caller's default format standing.
pub fn choose_surface_format(formats: &Option<Vec<SurfaceFormat>>, default_format: SurfaceFormat)
    -> (r: SurfaceFormat)
    requires
        formats matches Some(fs) ==> fs@.len() > 0,
    ensures
        formats is None ==> r == default_format,
        formats matches Some(fs) ==> {
            ||| exists|i: int|
                {
                    &&& 0 <= i < fs@.len()
                    &&& (#[trigger] fs@[i]).srgb
                    &&& r == fs@[i]
                    &&& forall|j: int| 0 <= j < i ==> !(#[trigger] fs@[j]).srgb
                }
            ||| (forall|i: int| 0 <= i < fs@.len() ==> !(#[trigger] fs@[i]).srgb) && r == fs@[0]
        },
{
    match formats {
        None => default_format,
        Some(fs) => {
            let p = first_srgb_pos(fs);
            if p < fs.len() {
                let r = fs[p];
                proof {
                    assert(fs@[p as int].srgb);
                    assert(r == fs@[p as int]);
                }
                r
            } else {
                fs[0]
            }
        },
    }
}

/// How many framebuffer/synchronization slots a swapchain needs: one per
/// present image, and one even when the backend reports no images at all.
pub fn slot_count_for_images(image_count: usize) -> (n: usize)
    ensures
        n == (if image_count == 0 {
            1int
        } else {
            image_count as int
        }),
        n >= 1,
{
    if image_count == 0 {
        1
    } else {
        image_count
    }
}

} // verus!
