use presentation::screen::{
    box_above_speaker, centered_rect, dialogue_rect, dialogue_size, frame_top, subtitle_cue, BoxAnchor,
};

#[test]
fn speaker_side_follows_the_pointer_height() {
    let pointer = Some(167);
    assert!(!box_above_speaker(0x40, pointer));
    assert!(box_above_speaker(0x40, Some(176)));
    assert!(box_above_speaker(0x80, pointer));
    assert!(!box_above_speaker(0x100, pointer));
    assert!(box_above_speaker(0x40, None));
    assert!(!box_above_speaker(0x180, None));
}

#[test]
fn attached_boxes_sit_above_the_head_with_the_pointer_under_the_speaker() {
    let (rect, pointer) = dialogue_rect(BoxAnchor::Actor, 323, 25, Some((330, 169)), true, Some((312, 167)));
    assert_eq!(rect, [169, 120, 492, 145]);
    assert_eq!(pointer, Some((330, 167)));
    let (below, _) = dialogue_rect(BoxAnchor::Actor, 100, 50, Some((320, 200)), false, None);
    assert_eq!(below, [270, 232, 370, 282]);
    let (clamped, _) = dialogue_rect(BoxAnchor::Actor, 100, 50, Some((10, 470)), false, None);
    assert_eq!(clamped, [41, 389, 141, 439]);
    let (missing, _) = dialogue_rect(BoxAnchor::Actor, 100, 50, None, false, None);
    assert_eq!(missing, [270, 272, 370, 322]);
}

#[test]
fn screen_boxes_center_on_their_cell_or_point() {
    assert_eq!(dialogue_rect(BoxAnchor::ScreenGrid(4), 101, 51, None, false, None).0, [268, 215, 369, 266]);
    assert_eq!(dialogue_rect(BoxAnchor::ScreenGrid(0), 200, 100, None, false, None).0, [41, 41, 241, 141]);
    assert_eq!(dialogue_rect(BoxAnchor::ScreenGrid(8), 200, 100, None, false, None).0, [399, 339, 599, 439]);
    assert_eq!(dialogue_rect(BoxAnchor::Screen(0, 0), 100, 50, None, false, None).0, [270, 215, 370, 265]);
    assert_eq!(dialogue_rect(BoxAnchor::Screen(5, 5), 100, 50, None, false, None).0, [-45, -20, 55, 30]);
    assert_eq!(dialogue_rect(BoxAnchor::ScreenGrid(4), 700, 500, None, false, None).0, [41, 41, 741, 541]);
}

#[test]
fn short_frames_are_centered_on_a_forty_eight_pixel_box() {
    assert_eq!(frame_top(120, 25), 108);
    assert_eq!(frame_top(120, 48), 120);
    assert_eq!(frame_top(120, 0), 96);
}

#[test]
fn overlay_images_center_on_their_position() {
    assert_eq!(centered_rect([-1, -1], [259, 65]), [-129, -32, 129, 32]);
    assert_eq!(centered_rect([10, -1], [259, 65]), [-5, -32, 5, 32]);
    assert_eq!(centered_rect([-3, 7], [0, 0]), [1, -3, -1, 3]);
    assert_eq!(centered_rect([70000, -1], [u32::MAX, 0]), [(-35000i32) as i16, 0, 35000i32 as i16, 0]);
}

#[test]
fn boxes_fit_their_widest_line_and_longest_page() {
    let page = |text: &[Option<u32>]| text.to_vec();
    let pages = vec![
        page(&[Some(10), Some(12), None, Some(30), None]),
        page(&[Some(5), None, Some(5), None, Some(5)]),
    ];
    assert_eq!(dialogue_size(&pages, None), (30, 75));
    assert_eq!(dialogue_size(&pages, Some((320, 64))), (320, 64));
    assert_eq!(dialogue_size(&vec![], None), (0, 25));
    assert_eq!(dialogue_size(&vec![page(&[None])], None), (0, 25));
    assert_eq!(dialogue_size(&vec![page(&[Some(7), Some(8)])], None), (15, 25));
}

#[test]
fn subtitles_follow_the_last_cue_that_has_begun() {
    let cues = vec![1, 100, 250];
    assert_eq!(subtitle_cue(&cues, Some(0), true, true), Some(0));
    assert_eq!(subtitle_cue(&cues, Some(99), true, true), Some(1));
    assert_eq!(subtitle_cue(&cues, Some(98), true, true), Some(0));
    assert_eq!(subtitle_cue(&cues, Some(1000), true, true), Some(2));
    assert_eq!(subtitle_cue(&vec![5], Some(0), true, true), None);
    assert_eq!(subtitle_cue(&cues, Some(99), false, true), None);
    assert_eq!(subtitle_cue(&cues, Some(99), true, false), None);
    assert_eq!(subtitle_cue(&cues, None, true, true), None);
}
