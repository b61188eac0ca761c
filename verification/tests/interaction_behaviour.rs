use freetasia::editor::clip::Clip;
use freetasia::editor::interact::{
    drag_position, dragged_clip_start, fmt_duration, fmt_duration_hms, grab_at, moved_overlay, needs_repaint,
    overlay_under, perform_cut, record_controls, resized_overlay_end, resized_overlay_start, ruler_step,
    scrub_size, transport, trim_left_drag, trim_range, trim_right_drag, CutOutcome, Grab, Transport,
};
use freetasia::editor::player::PlaybackState;
use freetasia::editor::text_overlay::TextOverlay;
use freetasia::editor::timeline::Timeline;
use freetasia::recorder::RecordingState;

const SEC: u64 = 1_000_000;
const SECI: i64 = 1_000_000;

fn timeline_ab() -> Timeline {
    let mut tl = Timeline::new();
    tl.add_clip(Clip::new(0, "a.mp4".to_string(), 10 * SEC, "A".to_string()));
    tl.add_clip(Clip::new(0, "b.mp4".to_string(), 5 * SEC, "B".to_string()));
    tl
}

#[test]
fn durations_are_formatted() {
    assert_eq!(fmt_duration(0), "00:00");
    assert_eq!(fmt_duration(75_500_000), "01:15");
    assert_eq!(fmt_duration(3_725_000_000), "62:05");
    assert_eq!(fmt_duration_hms(3_725_999_999), "01:02:05");
    assert_eq!(fmt_duration_hms(59 * SEC), "00:00:59");
}

#[test]
fn ruler_step_follows_zoom() {
    assert_eq!(ruler_step(400), 500_000);
    assert_eq!(ruler_step(160), 500_000);
    assert_eq!(ruler_step(80), 1_000_000);
    assert_eq!(ruler_step(10), 10_000_000);
    assert_eq!(ruler_step(1), 120_000_000);
    assert_eq!(ruler_step(0), 600_000_000);
}

#[test]
fn grab_picks_handles_playhead_clips_and_overlays() {
    let mut tl = Timeline::new();
    tl.add_clip(Clip::new(0, "a.mp4".to_string(), 10 * SEC, "A".to_string()));
    tl.add_text_overlay(TextOverlay::new(0, "T".to_string(), SEC, 4 * SEC));
    tl.set_playhead(5 * SEC as i64);
    assert_eq!(grab_at(&tl, None, None, 100, 4_850_000, 5), Grab::TrimLeft);
    assert_eq!(grab_at(&tl, None, None, 100, 5_100_000, 5), Grab::TrimRight);
    assert_eq!(grab_at(&tl, None, None, 100, 5_000_000, 5), Grab::Playhead);
    assert_eq!(grab_at(&tl, None, None, 100, 5_100_000, 22), Grab::Playhead);
    assert_eq!(grab_at(&tl, None, None, 100, 2 * SECI, 30), Grab::Clip { id: 0, offset: 2 * SEC });
    assert_eq!(grab_at(&tl, None, None, 100, 12 * SECI, 30), Grab::Nothing);
    assert_eq!(grab_at(&tl, None, None, 100, 1_050_000, 70), Grab::OverlayStart { id: 1 });
    assert_eq!(grab_at(&tl, None, None, 100, 3_950_000, 70), Grab::OverlayEnd { id: 1 });
    assert_eq!(grab_at(&tl, None, None, 100, 2 * SECI, 70), Grab::OverlayBody { id: 1, offset: SEC });
    assert_eq!(grab_at(&tl, None, None, 100, 2 * SECI, 63), Grab::Nothing);
    // A placed left head moves its handle.
    assert_eq!(grab_at(&tl, Some(2 * SEC), None, 100, 1_950_000, 5), Grab::TrimLeft);
}

#[test]
fn dragged_clip_snaps_to_neighbour_end() {
    let tl = timeline_ab();
    // B held 1 s after its start, dropped with its start at 10.2 s.
    assert_eq!(dragged_clip_start(tl.clips(), 1, 11_200_000, SEC), 10 * SEC);
}

#[test]
fn dragged_clip_is_pushed_off_overlap() {
    let tl = timeline_ab();
    // Dropped at 4 s, B would cover [4, 9) inside A: it moves past A's end.
    assert_eq!(dragged_clip_start(tl.clips(), 1, 5 * SECI, SEC), 10 * SEC);
    // Far from every edge it stays where it is dropped.
    assert_eq!(dragged_clip_start(tl.clips(), 1, 21 * SECI, SEC), 20 * SEC);
}

#[test]
fn dragged_clip_never_before_zero() {
    let tl = timeline_ab();
    // Near zero it snaps to A's start, is pushed left of A, and stops at zero.
    assert_eq!(dragged_clip_start(tl.clips(), 1, 1_200_000, SEC), 0);
    assert_eq!(dragged_clip_start(tl.clips(), 1, -5 * SECI, SEC), 0);
}

#[test]
fn overlay_moves_and_resizes() {
    assert_eq!(moved_overlay(SEC, 4 * SEC, 6 * SEC as i64, SEC), (5 * SEC, 8 * SEC));
    assert_eq!(moved_overlay(SEC, 4 * SEC, 0, SEC), (0, 3 * SEC));
    assert_eq!(resized_overlay_start(4 * SEC, 5 * SEC as i64), 3_900_000);
    assert_eq!(resized_overlay_start(4 * SEC, -1), 0);
    assert_eq!(resized_overlay_start(4 * SEC, 2 * SEC as i64), 2 * SEC);
    assert_eq!(resized_overlay_end(SEC, 0), 1_100_000);
    assert_eq!(resized_overlay_end(SEC, 3 * SEC as i64), 3 * SEC);
}

#[test]
fn trim_heads_stay_on_their_side_of_the_playhead() {
    assert_eq!(trim_left_drag(7 * SEC as i64, 5 * SEC), 5 * SEC);
    assert_eq!(trim_left_drag(-7, 5 * SEC), 0);
    assert_eq!(trim_left_drag(3 * SEC as i64, 5 * SEC), 3 * SEC);
    assert_eq!(trim_right_drag(2 * SEC as i64, 5 * SEC, 10 * SEC), 5 * SEC);
    assert_eq!(trim_right_drag(12 * SEC as i64, 5 * SEC, 10 * SEC), 10 * SEC);
    assert_eq!(trim_right_drag(7 * SEC as i64, 5 * SEC, 10 * SEC), 7 * SEC);
}

#[test]
fn trim_range_orders_heads() {
    assert_eq!(trim_range(Some(3 * SEC), None, 5 * SEC), Some((3 * SEC, 5 * SEC)));
    assert_eq!(trim_range(None, Some(3 * SEC), 5 * SEC), Some((3 * SEC, 5 * SEC)));
    assert_eq!(trim_range(Some(8 * SEC), Some(2 * SEC), 0), Some((2 * SEC, 8 * SEC)));
    assert_eq!(trim_range(None, None, 5 * SEC), None);
}

#[test]
fn perform_cut_outcomes() {
    let mut tl = Timeline::new();
    tl.add_clip(Clip::new(0, "a.mp4".to_string(), 10 * SEC, "A".to_string()));
    assert_eq!(perform_cut(&mut tl, None, None), CutOutcome::NoRange);
    assert_eq!(perform_cut(&mut tl, Some(10 * SEC), Some(12 * SEC)), CutOutcome::NothingCut);
    assert_eq!(perform_cut(&mut tl, Some(2 * SEC), Some(5 * SEC)), CutOutcome::Cut { start: 2 * SEC, end: 5 * SEC });
    assert_eq!(tl.playhead(), 2 * SEC);
    assert_eq!(tl.total_duration(), 7 * SEC);
}

#[test]
fn click_selects_nearest_visible_overlay() {
    let mut tl = Timeline::new();
    tl.add_clip(Clip::new(0, "a.mp4".to_string(), 10 * SEC, "A".to_string()));
    let near = tl.add_text_overlay(TextOverlay::new(0, "near".to_string(), 0, 5 * SEC));
    let mut o = TextOverlay::new(0, "far".to_string(), 0, 5 * SEC);
    o.x = 540;
    let _far = tl.add_text_overlay(o);
    let mut hidden = TextOverlay::new(0, "later".to_string(), 6 * SEC, 7 * SEC);
    hidden.x = 510;
    tl.add_text_overlay(hidden);
    assert_eq!(overlay_under(&tl, 510, 500), Some(near));
    assert_eq!(overlay_under(&tl, 500, 560), None);
}

#[test]
fn preview_drag_position_is_clamped() {
    assert_eq!(drag_position(50, 200), 250);
    assert_eq!(drag_position(-10, 200), 0);
    assert_eq!(drag_position(300, 200), 1000);
}

#[test]
fn button_states() {
    let c = record_controls(RecordingState::Idle, true, PlaybackState::Stopped);
    assert!(c.record && !c.pause && !c.stop && !c.pause_resumes);
    assert!(!record_controls(RecordingState::Idle, false, PlaybackState::Stopped).record);
    assert!(!record_controls(RecordingState::Idle, true, PlaybackState::Playing).record);
    let p = record_controls(RecordingState::Paused, true, PlaybackState::Stopped);
    assert!(!p.record && p.pause && p.pause_resumes && p.stop);
    assert_eq!(transport(PlaybackState::Playing, false, RecordingState::Idle, true), Transport::PauseStop);
    assert_eq!(transport(PlaybackState::Paused, false, RecordingState::Idle, true), Transport::ResumeStop);
    assert_eq!(transport(PlaybackState::Stopped, false, RecordingState::Idle, true), Transport::Play { enabled: true });
    assert_eq!(transport(PlaybackState::Stopped, true, RecordingState::Idle, true), Transport::Play { enabled: false });
    assert_eq!(transport(PlaybackState::Stopped, false, RecordingState::Paused, true), Transport::Play { enabled: false });
    assert!(needs_repaint(RecordingState::Recording, PlaybackState::Stopped, false, false));
    assert!(!needs_repaint(RecordingState::Paused, PlaybackState::Paused, false, false));
    assert!(needs_repaint(RecordingState::Idle, PlaybackState::Stopped, true, false));
}

#[test]
fn scrub_frames_are_half_size_and_even() {
    assert_eq!(scrub_size(1920, 1080), (960, 540));
    assert_eq!(scrub_size(1366, 768), (682, 384));
    assert_eq!(scrub_size(3, 0), (2, 2));
}
