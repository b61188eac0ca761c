use freetasia::editor::clip::Clip;
use freetasia::editor::export::{ffmpeg_available, prepare_export};
use freetasia::editor::project::Project;
use freetasia::editor::timeline::Timeline;

const SEC: u64 = 1_000_000;

fn clip(path: &str, secs: u64, label: &str) -> Clip {
    Clip::new(1, path.to_string(), secs * SEC, label.to_string())
}

// ── Clip tests ──────────────────────────────────────────────────────────────

#[test]
fn clip_full_duration() {
    let c = clip("a.mp4", 30, "Clip A");
    assert_eq!(c.duration(), 30 * SEC);
}

#[test]
fn clip_trimmed_duration() {
    let mut c = clip("a.mp4", 30, "Clip A");
    c.trim_start = 5 * SEC;
    c.trim_end = 20 * SEC;
    assert_eq!(c.duration(), 15 * SEC);
}

#[test]
fn clip_timeline_placement() {
    let mut c = clip("a.mp4", 10, "A");
    c.timeline_start = 3 * SEC;
    assert_eq!(c.timeline_end(), 13 * SEC);
}

// ── Timeline tests ──────────────────────────────────────────────────────────

#[test]
fn timeline_clips_auto_placed() {
    let mut tl = Timeline::new();
    tl.add_clip(Clip::new(0, "a.mp4".to_string(), 10 * SEC, "A".to_string()));
    tl.add_clip(Clip::new(0, "b.mp4".to_string(), 5 * SEC, "B".to_string()));

    let clips = tl.clips();
    assert_eq!(clips.len(), 2);
    // Second clip placed at the end of the first.
    assert_eq!(clips[1].timeline_start, 10 * SEC);
    assert_eq!(tl.total_duration(), 15 * SEC);
}

#[test]
fn timeline_remove_by_id() {
    let mut tl = Timeline::new();
    let id = tl.add_clip(Clip::new(0, "a.mp4".to_string(), 10 * SEC, "A".to_string()));
    assert!(tl.remove_clip(id));
    assert!(tl.is_empty());
}

#[test]
fn timeline_playhead_clamped_to_zero() {
    let mut tl = Timeline::new();
    tl.set_playhead(-99 * SEC as i64);
    assert_eq!(tl.playhead(), 0);
}

#[test]
fn timeline_playhead_clamped_to_duration() {
    let mut tl = Timeline::new();
    tl.add_clip(Clip::new(0, "a.mp4".to_string(), 10 * SEC, "A".to_string()));
    tl.set_playhead(9999 * SEC as i64);
    assert_eq!(tl.playhead(), 10 * SEC);
}

// ── Project tests ───────────────────────────────────────────────────────────

#[test]
fn project_default_name() {
    let p = Project::default();
    assert!(!p.name.is_empty());
}

#[test]
fn project_default_output_name_replaces_spaces() {
    let p = Project::new("My Cool Project".to_string());
    assert_eq!(p.default_output_name(), "My_Cool_Project.mp4");
}

// ── Export tests ────────────────────────────────────────────────────────────

#[test]
fn editor_tests_export_empty_timeline_errors() {
    let tl = Timeline::new();
    let result = prepare_export(&tl, "/tmp/test_out.mp4", Ok("ffmpeg".to_string()), None);
    assert!(result.is_err());
}

#[test]
fn ffmpeg_availability_check_does_not_panic() {
    let _ = ffmpeg_available(&vec![None, None, None, None]);
}
