use render_core::presenter::{
    choose_surface_format, slot_count_for_images, AcquireOutcome, Extent, PresentOutcome,
    Presenter, RebuildStep, RenderError, SurfaceFormat,
};

const EXTENT: Extent = Extent { width: 1024, height: 768 };

#[test]
fn surface_lost_skips_frame_and_recreates() {
    let mut p = Presenter::new(3, EXTENT);
    let slot = p.next_acq_pre_pair_index();
    assert_eq!(slot, 0);
    // The device reports a lost surface: the frame must be dropped.
    let r = p.acquire_image(AcquireOutcome::SurfaceLost);
    assert_eq!(r, Err(RenderError::SurfaceLost));
    assert!(p.needs_recreation());
    assert_eq!(p.acquired, None);
    // Recreation rebuilds everything, in dependency order, at the new extent.
    let new_extent = Extent { width: 800, height: 600 };
    let steps = p.recreate(new_extent, 3);
    assert_eq!(
        steps,
        vec![
            RebuildStep::Swapchain,
            RebuildStep::RenderPass,
            RebuildStep::DepthImage,
            RebuildStep::Framebuffers,
            RebuildStep::Pipeline,
            RebuildStep::Viewport,
        ]
    );
    assert!(!p.needs_recreation());
    assert_eq!(p.extent, new_extent);
    assert_eq!(p.render_pass_extent, new_extent);
    assert_eq!(p.framebuffer_extent, new_extent);
    assert_eq!(p.pipeline_extent, new_extent);
    // The next frame resumes submission.
    let r = p.acquire_image(AcquireOutcome::Image(1));
    assert_eq!(r, Ok(1));
    assert_eq!(p.present(PresentOutcome::Presented), Ok(()));
}

#[test]
fn double_acquire_is_an_error() {
    let mut p = Presenter::new(2, EXTENT);
    assert_eq!(p.acquire_image(AcquireOutcome::Image(0)), Ok(0));
    let r = p.acquire_image(AcquireOutcome::Image(1));
    assert_eq!(r, Err(RenderError::AlreadyAcquired { image_index: 0 }));
}

#[test]
fn present_without_acquire_is_an_error() {
    let mut p = Presenter::new(2, EXTENT);
    assert_eq!(p.present(PresentOutcome::Presented), Err(RenderError::NoImageAcquired));
}

#[test]
fn present_surface_loss_marks_recreation() {
    let mut p = Presenter::new(2, EXTENT);
    assert_eq!(p.acquire_image(AcquireOutcome::Image(1)), Ok(1));
    assert_eq!(p.present(PresentOutcome::SurfaceLost), Ok(()));
    assert!(p.needs_recreation());
    assert_eq!(p.acquired, None);
}

#[test]
fn semaphore_pairs_cycle_round_robin() {
    let mut p = Presenter::new(2, EXTENT);
    assert_eq!(p.next_acq_pre_pair_index(), 0);
    assert_eq!(p.next_acq_pre_pair_index(), 1);
    assert_eq!(p.next_acq_pre_pair_index(), 0);
    assert_eq!(p.next_acq_pre_pair_index(), 1);
}

#[test]
fn surface_format_prefers_first_srgb() {
    let default = SurfaceFormat { code: 99, srgb: true };
    let fs = vec![
        SurfaceFormat { code: 1, srgb: false },
        SurfaceFormat { code: 2, srgb: true },
        SurfaceFormat { code: 3, srgb: true },
    ];
    assert_eq!(choose_surface_format(&Some(fs), default), SurfaceFormat { code: 2, srgb: true });
    let no_srgb = vec![
        SurfaceFormat { code: 4, srgb: false },
        SurfaceFormat { code: 5, srgb: false },
    ];
    assert_eq!(
        choose_surface_format(&Some(no_srgb), default),
        SurfaceFormat { code: 4, srgb: false }
    );
    assert_eq!(choose_surface_format(&None, default), default);
}

#[test]
fn slot_count_covers_backends_with_no_images() {
    assert_eq!(slot_count_for_images(0), 1);
    assert_eq!(slot_count_for_images(3), 3);
}
