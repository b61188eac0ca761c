use freetasia::editor::clip::Clip;
use freetasia::editor::export::{ffmpeg_available, prepare_export};
use freetasia::editor::overlay::{Overlay, OverlayKind};
use freetasia::editor::project::Project;
use freetasia::editor::text_overlay::TextOverlay;
use freetasia::editor::timeline::Timeline;

const SEC: u64 = 1_000_000;

// ── Clip ────────────────────────────────────────────────────────────────────

fn test_clip() -> Clip {
    Clip::new(1, "test.mp4".to_string(), 10 * SEC, "Test".to_string())
}

#[test]
fn clip_duration_full() {
    let clip = test_clip();
    assert_eq!(clip.duration(), 10 * SEC);
}

#[test]
fn clip_duration_trimmed() {
    let mut clip = test_clip();
    clip.trim_start = 2 * SEC;
    clip.trim_end = 7 * SEC;
    assert_eq!(clip.duration(), 5 * SEC);
}

#[test]
fn clip_timeline_end() {
    let mut clip = test_clip();
    clip.timeline_start = 5 * SEC;
    assert_eq!(clip.timeline_end(), 15 * SEC);
}

#[test]
fn clip_duration_never_negative() {
    let mut clip = test_clip();
    clip.trim_start = 9 * SEC;
    clip.trim_end = 5 * SEC; // reversed – should clamp to 0
    assert_eq!(clip.duration(), 0);
}

// ── Export ──────────────────────────────────────────────────────────────────

#[test]
fn export_export_empty_timeline_errors() {
    let tl = Timeline::new();
    let result = prepare_export(&tl, "/tmp/out.mp4", Ok("ffmpeg".to_string()), None);
    assert!(result.is_err());
    assert!(result.err().unwrap().message().contains("empty"));
}

#[test]
fn ffmpeg_available_does_not_panic() {
    // We only check it doesn't panic; ffmpeg may or may not be installed.
    let _ = ffmpeg_available(&vec![]);
}

// ── Overlay ─────────────────────────────────────────────────────────────────

#[test]
fn text_overlay_duration() {
    let o = Overlay::new_text(1, "Hello".to_string(), 2 * SEC, 5 * SEC);
    assert_eq!(o.duration(), 3 * SEC);
}

#[test]
fn text_overlay_visible_at() {
    let o = Overlay::new_text(1, "Hello".to_string(), 2 * SEC, 5 * SEC);
    assert!(!o.visible_at(SEC));
    assert!(o.visible_at(2 * SEC));
    assert!(o.visible_at(3_500_000));
    assert!(!o.visible_at(5 * SEC));
}

#[test]
fn text_overlay_defaults() {
    let o = Overlay::new_text(1, "Test".to_string(), 0, SEC);
    assert_eq!(o.x, 500);
    assert_eq!(o.y, 500);
    assert!(o.is_text());
    if let OverlayKind::Text { font_size, color, .. } = &o.kind {
        assert_eq!(*font_size, 48);
        assert_eq!(*color, [255, 255, 255, 255]);
    }
}

#[test]
fn blur_overlay_duration() {
    let b = Overlay::new_blur(1, 2 * SEC, 5 * SEC);
    assert_eq!(b.duration(), 3 * SEC);
}

#[test]
fn blur_overlay_visible_at() {
    let b = Overlay::new_blur(1, 2 * SEC, 5 * SEC);
    assert!(!b.visible_at(SEC));
    assert!(b.visible_at(2 * SEC));
    assert!(b.visible_at(3_500_000));
    assert!(!b.visible_at(5 * SEC));
}

#[test]
fn blur_overlay_defaults() {
    let b = Overlay::new_blur(1, 0, SEC);
    assert!(b.is_blur());
    if let OverlayKind::Blur { width, height } = &b.kind {
        assert_eq!(*width, 300);
        assert_eq!(*height, 300);
    }
}

#[test]
fn label_text_short() {
    let o = Overlay::new_text(1, "Hi".to_string(), 0, SEC);
    assert_eq!(o.label(), "Hi");
}

#[test]
fn label_text_truncated() {
    let o = Overlay::new_text(1, "A very long text that should be truncated".to_string(), 0, SEC);
    assert!(o.label().ends_with('…'));
    assert!(o.label().len() <= 22); // 19 bytes + "…" (3 bytes)
}

#[test]
fn label_blur() {
    let b = Overlay::new_blur(1, 0, SEC);
    assert_eq!(b.label(), "Blur");
}

// ── Project ─────────────────────────────────────────────────────────────────

#[test]
fn default_output_name() {
    let p = Project::new("My Cool Project".to_string());
    assert_eq!(p.default_output_name(), "My_Cool_Project.mp4");
}

// ── TextOverlay ─────────────────────────────────────────────────────────────

#[test]
fn overlay_duration() {
    let o = TextOverlay::new(1, "Hello".to_string(), 2 * SEC, 5 * SEC);
    assert_eq!(o.duration(), 3 * SEC);
}

#[test]
fn overlay_visible_at() {
    let o = TextOverlay::new(1, "Hello".to_string(), 2 * SEC, 5 * SEC);
    assert!(!o.visible_at(SEC));
    assert!(o.visible_at(2 * SEC));
    assert!(o.visible_at(3_500_000));
    assert!(!o.visible_at(5 * SEC));
}

#[test]
fn overlay_defaults() {
    let o = TextOverlay::new(1, "Test".to_string(), 0, SEC);
    assert_eq!(o.x, 500);
    assert_eq!(o.y, 500);
    assert_eq!(o.font_size, 48);
    assert_eq!(o.color, [255, 255, 255, 255]);
}

// ── Timeline ────────────────────────────────────────────────────────────────

fn dummy_clip(secs: u64) -> Clip {
    Clip::new(0, "dummy.mp4".to_string(), secs * SEC, "Test".to_string())
}

#[test]
fn add_and_remove() {
    let mut tl = Timeline::new();
    let id = tl.add_clip(dummy_clip(5));
    assert_eq!(tl.clips().len(), 1);
    assert!(tl.remove_clip(id));
    assert!(tl.clips().is_empty());
}

#[test]
fn total_duration_accumulates() {
    let mut tl = Timeline::new();
    tl.add_clip(dummy_clip(10));
    tl.add_clip(dummy_clip(5));
    assert_eq!(tl.total_duration(), 15 * SEC);
}

#[test]
fn playhead_clamped() {
    let mut tl = Timeline::new();
    tl.add_clip(dummy_clip(10));
    tl.set_playhead(99 * SEC as i64);
    assert_eq!(tl.playhead(), 10 * SEC);
    tl.set_playhead(-5 * SEC as i64);
    assert_eq!(tl.playhead(), 0);
}

#[test]
fn remove_nonexistent_returns_false() {
    let mut tl = Timeline::new();
    assert!(!tl.remove_clip(42));
}
