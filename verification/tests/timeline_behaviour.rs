use freetasia::editor::clip::Clip;
use freetasia::editor::export::{build_ffmpeg_args, build_filter_graph};
use freetasia::editor::overlay::short_label;
use freetasia::editor::text_overlay::TextOverlay;
use freetasia::editor::timeline::Timeline;

const SEC: u64 = 1_000_000;

fn one_clip_timeline(secs: u64) -> Timeline {
    let mut tl = Timeline::new();
    tl.add_clip(Clip::new(0, "a.mp4".to_string(), secs * SEC, "A".to_string()));
    tl
}

#[test]
fn split_clip_makes_two_parts_and_keeps_total() {
    let mut tl = one_clip_timeline(10);
    let id = tl.split_clip(0, 4 * SEC);
    assert_eq!(id, Some(1));
    let clips = tl.clips();
    assert_eq!(clips.len(), 2);
    assert_eq!((clips[0].id, clips[0].trim_start, clips[0].trim_end, clips[0].timeline_start), (0, 0, 4 * SEC, 0));
    assert_eq!((clips[1].id, clips[1].trim_start, clips[1].trim_end, clips[1].timeline_start), (1, 4 * SEC, 10 * SEC, 4 * SEC));
    assert_eq!(clips[1].label, "A (2)");
    assert_eq!(tl.total_duration(), 10 * SEC);
}

#[test]
fn split_clip_at_edge_does_nothing() {
    let mut tl = one_clip_timeline(10);
    assert_eq!(tl.split_clip(0, 0), None);
    assert_eq!(tl.split_clip(0, 10 * SEC), None);
    assert_eq!(tl.split_clip(7, 5 * SEC), None);
    assert_eq!(tl.clips().len(), 1);
}

#[test]
fn cut_range_removes_middle_and_closes_gap() {
    let mut tl = one_clip_timeline(10);
    assert!(tl.cut_range(2 * SEC, 5 * SEC));
    let clips = tl.clips();
    assert_eq!(clips.len(), 2);
    assert_eq!((clips[0].trim_start, clips[0].trim_end, clips[0].timeline_start), (0, 2 * SEC, 0));
    assert_eq!((clips[1].trim_start, clips[1].trim_end, clips[1].timeline_start), (5 * SEC, 10 * SEC, 2 * SEC));
    assert_eq!(tl.total_duration(), 7 * SEC);
}

#[test]
fn cut_range_outside_clips_removes_nothing() {
    let mut tl = one_clip_timeline(10);
    assert!(!tl.cut_range(10 * SEC, 12 * SEC));
    assert!(!tl.cut_range(5 * SEC, 5 * SEC));
    assert_eq!(tl.total_duration(), 10 * SEC);
}

#[test]
fn cut_range_keeps_clips_before_and_shifts_clips_after() {
    let mut tl = Timeline::new();
    tl.add_clip(Clip::new(0, "a.mp4".to_string(), 4 * SEC, "A".to_string()));
    tl.add_clip(Clip::new(0, "b.mp4".to_string(), 2 * SEC, "B".to_string()));
    tl.add_clip(Clip::new(0, "c.mp4".to_string(), 3 * SEC, "C".to_string()));
    // B spans [4, 6): cut it out exactly.
    assert!(tl.cut_range(4 * SEC, 6 * SEC));
    let clips = tl.clips();
    assert_eq!(clips.len(), 2);
    assert_eq!((clips[0].source_path.as_str(), clips[0].timeline_start), ("a.mp4", 0));
    assert_eq!((clips[1].source_path.as_str(), clips[1].timeline_start), ("c.mp4", 4 * SEC));
}

#[test]
fn sort_clips_orders_by_start_and_keeps_ties() {
    let mut tl = Timeline::new();
    tl.add_clip(Clip::new(0, "a.mp4".to_string(), 4 * SEC, "A".to_string()));
    tl.add_clip(Clip::new(0, "b.mp4".to_string(), 2 * SEC, "B".to_string()));
    tl.add_clip(Clip::new(0, "c.mp4".to_string(), 3 * SEC, "C".to_string()));
    tl.clip_mut(0).unwrap().timeline_start = 9 * SEC;
    tl.clip_mut(2).unwrap().timeline_start = 0;
    tl.clip_mut(1).unwrap().timeline_start = 0;
    tl.sort_clips();
    let ids: Vec<u64> = tl.clips().iter().map(|c| c.id).collect();
    assert_eq!(ids, vec![1, 2, 0]);
}

#[test]
fn ripple_shift_moves_later_items() {
    let mut tl = Timeline::new();
    tl.add_clip(Clip::new(0, "a.mp4".to_string(), 4 * SEC, "A".to_string()));
    tl.add_clip(Clip::new(0, "b.mp4".to_string(), 2 * SEC, "B".to_string()));
    tl.add_text_overlay(TextOverlay::new(0, "T".to_string(), 5 * SEC, 6 * SEC));
    tl.ripple_shift_after(4 * SEC, 3 * SEC as i64, 99);
    assert_eq!(tl.clips()[1].timeline_start, 7 * SEC);
    assert_eq!((tl.text_overlays()[0].start, tl.text_overlays()[0].end), (8 * SEC, 9 * SEC));
    tl.ripple_shift_after(0, -10 * SEC as i64, 1);
    assert_eq!(tl.clips()[0].timeline_start, 0);
    assert_eq!(tl.clips()[1].timeline_start, 7 * SEC);
}

#[test]
fn add_then_remove_text_overlay() {
    let mut tl = one_clip_timeline(10);
    let id = tl.add_text_overlay(TextOverlay::new(0, "Hi".to_string(), SEC, 3 * SEC));
    assert_eq!(id, 1);
    assert_eq!(tl.text_overlays_at(2 * SEC).len(), 1);
    assert_eq!(tl.text_overlays_at(3 * SEC).len(), 0);
    assert!(tl.remove_text_overlay(id));
    assert!(!tl.remove_text_overlay(id));
    assert!(tl.text_overlays().is_empty());
}

#[test]
fn filter_graph_single_clip_no_overlay() {
    let tl = one_clip_timeline(10);
    assert_eq!(
        build_filter_graph(tl.clips(), tl.text_overlays()),
        "[0:v]trim=start=0:end=10,setpts=1*(PTS-STARTPTS)[v0];[v0]concat=n=1:v=1:a=0[concatv];[concatv]null[outv]"
    );
}

#[test]
fn filter_graph_with_text_overlays() {
    let mut tl = one_clip_timeline(10);
    tl.clip_mut(0).unwrap().trim_start = 2_500_000;
    let mut o = TextOverlay::new(0, "a:b".to_string(), SEC, 2_500_000);
    o.x = 250;
    o.color = [255, 0, 16, 128];
    tl.add_text_overlay(o);
    tl.add_text_overlay(TextOverlay::new(0, "c".to_string(), 0, SEC));
    assert_eq!(
        build_filter_graph(tl.clips(), tl.text_overlays()),
        "[0:v]trim=start=2.5:end=10,setpts=1*(PTS-STARTPTS)[v0];[v0]concat=n=1:v=1:a=0[concatv]\
;[concatv]drawtext=text='a\\\\:b':fontsize=48:fontcolor=#ff001080:x='w*0.25-tw/2':y='h*0.5-th/2':enable='between(t,1,2.5)'[txt0]\
;[txt0]drawtext=text='c':fontsize=48:fontcolor=#ffffffff:x='w*0.5-tw/2':y='h*0.5-th/2':enable='between(t,0,1)'[outv]"
    );
}

#[test]
fn ffmpeg_args_with_audio() {
    let tl = one_clip_timeline(10);
    let args = build_ffmpeg_args(&tl, "out.mp4", Some("a.wav".to_string()));
    let graph = build_filter_graph(tl.clips(), tl.text_overlays());
    let expected: Vec<String> = vec![
        "-i", "a.mp4", "-filter_complex", graph.as_str(), "-map", "[outv]", "-i", "a.wav", "-map", "1:a",
        "-c:a", "aac", "-shortest", "-c:v", "libx264", "-pix_fmt", "yuv420p", "-progress", "pipe:2", "-y",
        "out.mp4",
    ]
    .into_iter()
    .map(String::from)
    .collect();
    assert_eq!(args, expected);
}

#[test]
fn ffmpeg_args_without_audio() {
    let tl = one_clip_timeline(10);
    let args = build_ffmpeg_args(&tl, "out.mp4", None);
    assert_eq!(args.len(), 14);
    assert_eq!(args[4], "-map");
    assert_eq!(args[6], "-c:v");
    assert_eq!(args[13], "out.mp4");
}

#[test]
fn short_label_cuts_at_byte_nineteen() {
    assert_eq!(short_label("exactly twenty bytes"), "exactly twenty bytes");
    assert_eq!(short_label("ééééééééé" ), "ééééééééé");
    assert_eq!(short_label("éééééééééabcd"), "éééééééééa…");
    assert_eq!(short_label("A very long text that should be truncated"), "A very long text th…");
}

#[test]
fn clamping_the_playhead_twice_changes_nothing() {
    let mut tl = one_clip_timeline(10);
    tl.set_playhead(9999 * SEC as i64);
    assert_eq!(tl.playhead(), 10 * SEC);
    let again = tl.playhead() as i64;
    tl.set_playhead(again);
    assert_eq!(tl.playhead(), 10 * SEC);
}

#[test]
fn refused_split_and_cut_leave_the_timeline_alone() {
    let mut tl = one_clip_timeline(10);
    tl.set_playhead(3 * SEC as i64);
    assert_eq!(tl.split_clip(0, 10 * SEC), None);
    assert!(!tl.cut_range(10 * SEC, 12 * SEC));
    assert_eq!(tl.clips().len(), 1);
    assert_eq!((tl.clips()[0].trim_start, tl.clips()[0].trim_end, tl.clips()[0].label.as_str()), (0, 10 * SEC, "A"));
    assert_eq!((tl.next_id(), tl.playhead()), (1, 3 * SEC));
}
