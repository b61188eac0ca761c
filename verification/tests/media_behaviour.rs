use freetasia::editor::clip::Clip;
use freetasia::editor::export::{
    find_tool, prepare_export, progress_from_line, tool_probes, ExportError, Tool, ToolProbe,
};
use freetasia::editor::player::{
    decode_args, decode_window, duration_probe_args, frame_position, parse_resolution, play_segments,
    playback_end, resolution_probe_args, scrub_args, scrub_target, PlaySegment, PlaybackClock, PlaybackControl,
    PlaybackState, ScrubRequest,
};
use freetasia::editor::timeline::Timeline;
use freetasia::recorder::local_time::{clock_stamp, file_stamp, LocalTime};
use freetasia::recorder::manager::{session_clip, RecordedSession, RecorderError, RecorderManager};
use freetasia::recorder::screen::{encoder_args, monitor_slot};
use freetasia::recorder::RecordingState;

const SEC: u64 = 1_000_000;

fn strings(v: &[&str]) -> Vec<String> {
    v.iter().map(|s| s.to_string()).collect()
}

fn segment(trim_start: u64, dur: u64, at: u64) -> PlaySegment {
    PlaySegment {
        source_path: "a.mp4".to_string(),
        trim_start,
        trim_duration: dur,
        speed: 1000,
        timeline_start: at,
        timeline_duration: dur,
    }
}

#[test]
fn progress_lines_are_read() {
    assert_eq!(progress_from_line("out_time_us=5000000", 10 * SEC), Some(500_000));
    assert_eq!(progress_from_line("out_time_us= 2500000 ", 10 * SEC), Some(250_000));
    assert_eq!(progress_from_line("out_time_us=20000000", 10 * SEC), Some(1_000_000));
    assert_eq!(progress_from_line("out_time_us=-1", 10 * SEC), None);
    assert_eq!(progress_from_line("out_time_us=abc", 10 * SEC), None);
    assert_eq!(progress_from_line("frame=12", 10 * SEC), None);
    assert_eq!(progress_from_line("out_time_us=5", 0), None);
}

#[test]
fn tools_are_looked_for_in_order() {
    let probes = tool_probes(Tool::Ffprobe);
    assert_eq!(probes.len(), 4);
    assert!(matches!(&probes[0], ToolProbe::BesideExe(f) if f == "ffprobe.exe"));
    assert!(matches!(&probes[1], ToolProbe::InSubdir(d, f) if d == "ffmpeg" && f == "ffprobe.exe"));
    assert!(matches!(&probes[2], ToolProbe::OnPath(c) if c == "ffprobe"));
    assert!(matches!(&probes[3], ToolProbe::AtPath(p) if p == "C:\\ffmpeg\\bin\\ffprobe.exe"));
    let found = find_tool(Tool::Ffprobe, &vec![None, Some("/opt/ffprobe.exe".to_string()), Some("ffprobe".to_string())]);
    assert_eq!(found.ok(), Some("/opt/ffprobe.exe".to_string()));
}

#[test]
fn missing_tool_error_message() {
    let err = find_tool(Tool::Ffmpeg, &vec![None, None]).err().unwrap();
    assert!(matches!(err, ExportError::ToolNotFound(Tool::Ffmpeg)));
    assert_eq!(
        err.message(),
        "ffmpeg not found. Place ffmpeg.exe next to the Freetasia executable, or install ffmpeg and add it to your PATH. See https://ffmpeg.org/download.html"
    );
    assert_eq!(ExportError::EmptyTimeline.message(), "Cannot export an empty timeline");
}

#[test]
fn export_needs_clips_then_ffmpeg() {
    let mut tl = Timeline::new();
    tl.add_clip(Clip::new(0, "a.mp4".to_string(), 10 * SEC, "A".to_string()));
    let r = prepare_export(&tl, "o.mp4", find_tool(Tool::Ffmpeg, &vec![]), None);
    assert!(matches!(r, Err(ExportError::ToolNotFound(Tool::Ffmpeg))));
    let r = prepare_export(&tl, "o.mp4", Ok("ffmpeg".to_string()), None);
    let (path, args) = r.ok().unwrap();
    assert_eq!(path, "ffmpeg");
    assert_eq!(args[0], "-i");
    assert_eq!(args[1], "a.mp4");
}

#[test]
fn segments_follow_clips() {
    let mut tl = Timeline::new();
    tl.add_clip(Clip::new(0, "a.mp4".to_string(), 10 * SEC, "A".to_string()));
    tl.add_clip(Clip::new(0, "b.mp4".to_string(), 5 * SEC, "B".to_string()));
    let segs = play_segments(&tl);
    assert_eq!(segs.len(), 2);
    assert_eq!(segs[1].source_path, "b.mp4");
    assert_eq!((segs[1].timeline_start, segs[1].timeline_duration), (10 * SEC, 5 * SEC));
    assert_eq!(playback_end(&segs), 15 * SEC);
    assert_eq!(scrub_target(&segs, 12 * SEC), Some((1, 2 * SEC)));
    assert_eq!(scrub_target(&segs, 15 * SEC), None);
}

#[test]
fn decode_windows() {
    let s = segment(SEC, 10 * SEC, 2 * SEC);
    let w = decode_window(&s, 4_500_000).unwrap();
    assert_eq!((w.seek, w.remaining, w.timeline_pos, w.segment_end), (3_500_000, 7_500_000, 4_500_000, 12 * SEC));
    let w = decode_window(&s, 0).unwrap();
    assert_eq!((w.seek, w.remaining, w.timeline_pos), (SEC, 10 * SEC, 2 * SEC));
    assert!(decode_window(&s, 12 * SEC).is_none());
}

#[test]
fn decode_and_scrub_commands() {
    let s = segment(0, 10 * SEC, 0);
    let w = decode_window(&s, 2_500_000).unwrap();
    assert_eq!(
        decode_args(&w, "a.mp4", 640, 360, 30),
        strings(&[
            "-ss", "2.500000", "-t", "7.500000", "-i", "a.mp4", "-vf", "scale=640:360:flags=bilinear", "-f",
            "rawvideo", "-pix_fmt", "rgba", "-r", "30.0000", "-v", "quiet", "pipe:1",
        ])
    );
    assert_eq!(
        scrub_args(61_000_001, "b.mp4", 320, 180),
        strings(&[
            "-accurate_seek", "-ss", "61.000001", "-i", "b.mp4", "-frames:v", "1", "-vf",
            "scale=320:180:flags=fast_bilinear", "-f", "rawvideo", "-pix_fmt", "rgba", "-v", "quiet", "pipe:1",
        ])
    );
}

#[test]
fn segments_at_speed_seek_and_rate_by_speed() {
    // A clip at twice the speed: 10 s of source over 5 s of timeline.
    let s = PlaySegment {
        source_path: "a.mp4".to_string(),
        trim_start: 2 * SEC,
        trim_duration: 10 * SEC,
        speed: 2000,
        timeline_start: 0,
        timeline_duration: 5 * SEC,
    };
    let w = decode_window(&s, SEC).unwrap();
    assert_eq!((w.seek, w.remaining, w.timeline_pos, w.segment_end), (4 * SEC, 8 * SEC, SEC, 5 * SEC));
    assert_eq!(
        decode_args(&w, "a.mp4", 64, 36, 30),
        strings(&[
            "-ss", "4.000000", "-t", "8.000000", "-i", "a.mp4", "-vf", "scale=64:36:flags=bilinear", "-f",
            "rawvideo", "-pix_fmt", "rgba", "-r", "15.0000", "-v", "quiet", "pipe:1",
        ])
    );
    assert_eq!(scrub_target(&vec![s.clone()], 3 * SEC), Some((0, 8 * SEC)));
    // At a third of the speed the rate is rounded to four decimals.
    let slow = PlaySegment { speed: 3000, ..s.clone() };
    let w = decode_window(&slow, 0).unwrap();
    assert_eq!(decode_args(&w, "a.mp4", 64, 36, 25)[13], "8.3333");
    let quarter = PlaySegment { speed: 250, ..s };
    let w = decode_window(&quarter, 0).unwrap();
    assert_eq!(decode_args(&w, "a.mp4", 64, 36, 30)[13], "120.0000");
}

#[test]
fn frame_positions() {
    assert_eq!(frame_position(SEC, 3, 30), Some(1_100_000));
    assert_eq!(frame_position(SEC, 3, 0), Some(4 * SEC));
    assert_eq!(frame_position(u64::MAX, 1, 1), None);
}

#[test]
fn ffprobe_output_is_read() {
    assert_eq!(parse_resolution("1920,1080\n"), Some((1920, 1080)));
    assert_eq!(parse_resolution(" 1280,720,extra "), Some((1280, 720)));
    assert_eq!(parse_resolution("+64,48"), Some((64, 48)));
    assert_eq!(parse_resolution("1920"), None);
    assert_eq!(parse_resolution("1920,abc"), None);
    assert_eq!(parse_resolution("-0,48"), None);
    assert_eq!(parse_resolution("4294967296,1"), None);
    assert_eq!(parse_resolution("1920 ,1080"), None);
    assert_eq!(
        resolution_probe_args("v.mp4"),
        strings(&["-v", "error", "-select_streams", "v:0", "-show_entries", "stream=width,height", "-of", "csv=p=0", "v.mp4"])
    );
    assert_eq!(duration_probe_args("v.mp4")[5], "stream=duration");
}

#[test]
fn playback_clock_excludes_pauses() {
    let mut c = PlaybackClock::new();
    assert_eq!(c.active_elapsed_at(3 * SEC), 3 * SEC);
    c.pause_at(3 * SEC);
    assert_eq!(c.active_elapsed_at(5 * SEC), 3 * SEC);
    assert!(!c.reached_at(5 * SEC, 0, SEC));
    c.resume_at(6 * SEC);
    assert_eq!(c.active_elapsed_at(8 * SEC), 5 * SEC);
    assert_eq!(c.current_position_at(8 * SEC, 10 * SEC, 12 * SEC), 12 * SEC);
    assert_eq!(c.current_position_at(8 * SEC, 5 * SEC, 12 * SEC), 10 * SEC);
    assert!(c.reached_at(8 * SEC, 5 * SEC, 10 * SEC));
    assert!(!c.reached_at(8 * SEC, 5 * SEC, 10 * SEC + 1));
}

#[test]
fn playback_control_states() {
    let mut p = PlaybackControl::new();
    assert_eq!(p.state(), PlaybackState::Stopped);
    assert!(!p.begin(&vec![], 0, 640, 360));
    let segs = vec![segment(0, 10 * SEC, 0)];
    assert!(!p.begin(&segs, 0, 0, 360));
    assert!(p.begin(&segs, 2 * SEC, 640, 360));
    assert_eq!(p.state(), PlaybackState::Playing);
    assert!(!p.is_finished());
    p.frame_shown(9_950_000);
    assert!(p.is_finished());
    assert!(p.pause());
    assert_eq!(p.state(), PlaybackState::Paused);
    assert!(!p.pause());
    assert!(p.resume());
    p.stop();
    assert_eq!(p.state(), PlaybackState::Stopped);
}

#[test]
fn scrub_requests_queue_behind_a_running_decode() {
    let mut p = PlaybackControl::new();
    let req = |pos: u64| ScrubRequest { segments: vec![segment(0, 10 * SEC, 0)], position: pos, width: 2, height: 2 };
    assert_eq!(p.request_scrub(req(SEC), false).map(|r| r.position), Some(SEC));
    assert!(p.is_scrub_busy());
    assert!(p.request_scrub(req(2 * SEC), false).is_none());
    assert!(p.request_scrub(req(3 * SEC), false).is_none());
    assert!(p.poll_scrub(false, false).is_none());
    assert_eq!(p.poll_scrub(true, false).map(|r| r.position), Some(3 * SEC));
    assert!(p.is_scrub_busy());
    assert!(p.poll_scrub(true, true).is_none());
    assert!(!p.is_scrub_busy());
    let empty = ScrubRequest { segments: vec![], position: 0, width: 2, height: 2 };
    assert!(p.request_scrub(empty, true).is_none());
}

#[test]
fn recording_time_excludes_pauses() {
    let mut m = RecorderManager::new("/tmp/rec".to_string());
    m.recording_started_at(SEC, "v.mp4".to_string(), Some("a.wav".to_string()));
    assert_eq!(m.state(), RecordingState::Recording);
    assert_eq!(m.elapsed_at(4 * SEC), 3 * SEC);
    m.pause_recording_at(4 * SEC);
    assert_eq!(m.state(), RecordingState::Paused);
    assert_eq!(m.elapsed_at(9 * SEC), 3 * SEC);
    m.resume_recording_at(10 * SEC);
    assert_eq!(m.elapsed_at(12 * SEC), 5 * SEC);
    m.pause_recording_at(13 * SEC);
    let s = m.stop_recording_at(15 * SEC).unwrap();
    assert_eq!(s.video_path, "v.mp4");
    assert_eq!(s.audio_path, Some("a.wav".to_string()));
    assert_eq!(s.duration, 6 * SEC);
    assert_eq!(m.state(), RecordingState::Idle);
    assert!(m.stop_recording_at(16 * SEC).is_none());
}

#[test]
fn a_session_is_planned_only_when_idle() {
    let now = LocalTime::new(2024, 3, 7, 9, 5, 1).unwrap();
    let mut m = RecorderManager::new("/tmp/rec".to_string());
    let plan = m.plan_recording(&now).ok().unwrap();
    assert_eq!(plan.video_file, "screen_20240307_090501.mp4");
    assert_eq!(plan.audio_file, Some("audio_20240307_090501.wav".to_string()));
    assert_eq!((plan.monitor_index, plan.fps), (0, 60));
    m.record_audio = false;
    assert!(m.plan_recording(&now).ok().unwrap().audio_file.is_none());
    m.recording_started("v.mp4".to_string(), None);
    let err = m.plan_recording(&now).err().unwrap();
    assert_eq!(err, RecorderError::AlreadyRecording);
    assert_eq!(err.message(), "Already recording");
}

#[test]
fn file_stamps_pad_the_year_to_four_digits() {
    let early = LocalTime::new(812, 12, 31, 23, 59, 59).unwrap();
    assert_eq!(file_stamp(&early), "08121231_235959");
    assert_eq!(clock_stamp(&early), "23:59:59");
}

#[test]
fn local_times_that_do_not_exist_are_refused() {
    assert!(LocalTime::new(2023, 2, 29, 0, 0, 0).is_none());
    assert!(LocalTime::new(2024, 2, 29, 0, 0, 0).is_some());
    assert!(LocalTime::new(1900, 2, 29, 0, 0, 0).is_none());
    assert!(LocalTime::new(2000, 2, 29, 0, 0, 0).is_some());
    assert!(LocalTime::new(2024, 4, 31, 0, 0, 0).is_none());
    assert!(LocalTime::new(2024, 13, 1, 0, 0, 0).is_none());
    assert!(LocalTime::new(2024, 1, 1, 24, 0, 0).is_none());
    assert!(LocalTime::new(2024, 1, 1, 0, 60, 0).is_none());
    assert!(LocalTime::new(2024, 1, 1, 0, 0, 60).is_none());
    assert!(LocalTime::new(262143, 1, 1, 0, 0, 0).is_none());
}

#[test]
fn short_sessions_are_discarded() {
    let now = LocalTime::new(2024, 3, 7, 14, 30, 0).unwrap();
    let short = RecordedSession { video_path: "v.mp4".to_string(), audio_path: None, duration: 499_999 };
    assert!(session_clip(&short, &now).is_none());
    let ok = RecordedSession { video_path: "v.mp4".to_string(), audio_path: None, duration: 2 * SEC };
    let c = session_clip(&ok, &now).unwrap();
    assert_eq!((c.trim_start, c.trim_end, c.timeline_start), (0, 2 * SEC, 0));
    assert_eq!(c.source_path, "v.mp4");
    assert_eq!(c.label, "Recording 14:30:00");
}

#[test]
fn encoder_command_and_monitor_choice() {
    assert_eq!(
        encoder_args(1920, 1080, 60, "out.mp4"),
        strings(&[
            "-y", "-f", "rawvideo", "-pixel_format", "rgba", "-video_size", "1920x1080", "-framerate", "60", "-i",
            "pipe:0", "-c:v", "libx264", "-pix_fmt", "yuv420p", "-preset", "ultrafast", "out.mp4",
        ])
    );
    assert_eq!(monitor_slot(1, 2), Some(1));
    assert_eq!(monitor_slot(5, 2), Some(1));
    assert_eq!(monitor_slot(0, 0), None);
}

#[test]
fn a_paused_session_reports_the_time_at_its_pause() {
    let mut m = RecorderManager::new("/tmp/rec".to_string());
    m.recording_started_at(0, "v.mp4".to_string(), None);
    m.pause_recording_at(2 * SEC);
    assert_eq!(m.elapsed(), 2 * SEC);
    assert_eq!(m.elapsed(), m.elapsed_at(9 * SEC));
}
