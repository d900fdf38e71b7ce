use presentation::showcase::{
    audio_frame, capture_timed_out, report_progress, settle_frames, ClassroomShowcase, Director, PageState,
    PlanStep, ShowcaseError, ShowcaseWorld, StopReason,
};

fn world() -> ShowcaseWorld {
    ShowcaseWorld {
        field_camera: true,
        lloyd_present: true,
        movie_finished: true,
        blocked_by_movie: false,
        tick: 500,
        lloyd_controlled: false,
    }
}

fn page(operation: u64, page: usize) -> PageState {
    PageState {
        operation,
        page,
        closed: false,
        persistent: false,
        pending: true,
        fully_revealed: true,
        accepts_input: true,
        voice_finished: true,
    }
}

#[test]
fn default_capture_is_a_full_quality_1080p_path_traced_recording() {
    let spec = ClassroomShowcase::default();
    assert_eq!(spec.samples, 256);
    assert_eq!(spec.resolution, [1920, 1080]);
    assert_eq!(spec.max_frames, None);
    assert_eq!(spec.from_frame, 0);
    assert_eq!(spec.start_tick, None);
    assert!(!spec.plan_only && spec.pathtracing && spec.strong_smaa && spec.audio);
    assert_eq!(spec.validate(), Ok(()));
}

#[test]
fn capture_settings_report_their_first_problem() {
    let base = ClassroomShowcase::default();
    assert_eq!(ClassroomShowcase { samples: 0, ..base.clone() }.validate(), Err(ShowcaseError::Samples));
    assert_eq!(ClassroomShowcase { samples: 65537, ..base.clone() }.validate(), Err(ShowcaseError::Samples));
    assert_eq!(ClassroomShowcase { samples: 65536, ..base.clone() }.validate(), Ok(()));
    assert_eq!(ClassroomShowcase { resolution: [1280, 1080], ..base.clone() }.validate(), Err(ShowcaseError::Resolution));
    for resolution in [[640, 360], [1280, 720], [1920, 1080], [3840, 2160]] {
        assert_eq!(ClassroomShowcase { resolution, ..base.clone() }.validate(), Ok(()));
    }
    assert_eq!(ClassroomShowcase { max_frames: Some(0), ..base.clone() }.validate(), Err(ShowcaseError::Duration));
    assert_eq!(ClassroomShowcase { max_frames: Some(36001), ..base.clone() }.validate(), Err(ShowcaseError::Duration));
    assert_eq!(ClassroomShowcase { start_tick: Some(20001), ..base.clone() }.validate(), Err(ShowcaseError::StartTick));
    assert_eq!(ClassroomShowcase { from_frame: 36001, ..base.clone() }.validate(), Err(ShowcaseError::FromFrame));
    assert_eq!(
        ClassroomShowcase { from_frame: 1, start_tick: Some(5), ..base.clone() }.validate(),
        Err(ShowcaseError::OffsetWithStartTick)
    );
    assert_eq!(
        ClassroomShowcase { samples: 0, resolution: [1, 1], ..base }.validate(),
        Err(ShowcaseError::Samples)
    );
}

#[test]
fn capture_starts_after_the_opening_movie_and_stops_at_the_handoff_or_budget() {
    let spec = ClassroomShowcase { start_tick: Some(600), max_frames: Some(10), ..ClassroomShowcase::default() };
    assert!(!spec.reached_start(&world()));
    assert!(spec.reached_start(&ShowcaseWorld { tick: 600, ..world() }));
    assert!(!ClassroomShowcase::default().reached_start(&ShowcaseWorld { blocked_by_movie: true, ..world() }));
    assert!(ClassroomShowcase::default().reached_start(&world()));
    assert_eq!(spec.stop_reason(&world(), 9), None);
    assert_eq!(spec.stop_reason(&world(), 10), Some(StopReason::DurationLimit));
    assert_eq!(spec.stop_reason(&ShowcaseWorld { lloyd_controlled: true, ..world() }, 10), Some(StopReason::LloydControl));
    assert_eq!(StopReason::LloydControl.name(), "lloyd_control");
    assert_eq!(StopReason::DurationLimit.name(), "duration_limit");
}

#[test]
fn plans_mark_each_second_and_seeks_stop_at_the_handoff() {
    let spec = ClassroomShowcase { from_frame: 2, max_frames: Some(3), ..ClassroomShowcase::default() };
    assert_eq!(spec.plan_step(0, &world()), Ok(PlanStep { milestone: true, stop: None }));
    assert_eq!(spec.plan_step(1, &world()), Ok(PlanStep { milestone: false, stop: None }));
    assert_eq!(spec.plan_step(2, &world()), Ok(PlanStep { milestone: true, stop: Some(StopReason::DurationLimit) }));
    assert_eq!(spec.plan_step(36000, &world()), Err(ShowcaseError::NoHandoff));
    assert_eq!(spec.seek_step(0, &world()), Ok(true));
    assert_eq!(spec.seek_step(2, &world()), Ok(false));
    assert_eq!(
        spec.seek_step(1, &ShowcaseWorld { lloyd_controlled: true, ..world() }),
        Err(ShowcaseError::PastHandoff)
    );
}

#[test]
fn capture_pacing() {
    assert_eq!(audio_frame(60), 32028);
    assert_eq!(audio_frame(1), 533);
    assert_eq!(settle_frames(0), 20);
    assert_eq!(settle_frames(7), 1);
    assert!(report_progress(32, 0, 256));
    assert!(!report_progress(31, 0, 256));
    assert!(report_progress(512, 0, 65536));
    assert!(!report_progress(511, 0, 65536));
    assert!(!capture_timed_out(300 + 30, 1));
    assert!(capture_timed_out(331, 1));
}

#[test]
fn the_director_reads_on_after_two_seconds_of_a_readable_page() {
    let mut director = Director::new();
    let pages = vec![page(7, 0)];
    assert!(!director.interact(&pages, 10));
    assert_eq!(director.ready_since, vec![(7, 0, 10)]);
    assert!(!director.interact(&pages, 129));
    assert!(director.interact(&pages, 130));
    let mut busy = page(8, 0);
    busy.voice_finished = false;
    assert!(!director.interact(&vec![busy], 1000));
    assert_eq!(director.ready_since, vec![(7, 0, 10)]);
    assert!(director.interact(&vec![page(7, 1), page(7, 0)], 131));
    assert_eq!(director.ready_since, vec![(7, 0, 10), (7, 1, 131)]);
}
