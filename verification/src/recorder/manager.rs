//! The recording session: its state machine, the time recorded (pauses
//! excluded), the files it writes, and what a finished session becomes.
use vstd::prelude::*;
use crate::clock::{instant_now, micros_since};
use crate::editor::clip::Clip;
use crate::recorder::RecordingState;
use crate::recorder::local_time::{clock_stamp, clock_text, date_stamp, file_stamp, LocalTime};
use crate::text::{push_str, string_from_chars};

verus! {

/// A completed recording session.
pub struct RecordedSession {
    /// Path to the encoded video file (MP4).
    pub video_path: String,
    /// Path to the raw audio file (WAV), if audio was recorded.
    pub audio_path: Option<String>,
    /// Time recorded, pauses excluded, in microseconds.
    pub duration: u64,
}

/// The files a new session writes and how it captures.
pub struct SessionPlan {
    /// File name of the video, `screen_<stamp>.mp4`.
    pub video_file: String,
    /// File name of the audio, `audio_<stamp>.wav`, when audio is recorded.
    pub audio_file: Option<String>,
    pub monitor_index: usize,
    pub fps: u32,
}

/// Why a session cannot start.
#[derive(Debug, Clone, Copy, PartialEq, Eq, Structural)]
pub enum RecorderError {
    AlreadyRecording,
}

impl RecorderError {
    pub fn message(&self) -> (m: String)
        ensures
            m@ == "Already recording"@,
    {
        String::from_str("Already recording")
    }
}

/// Time recorded at reading `now` of a session that started at `start`:
/// the time since the start less the time paused, the current pause (from
/// `pause_start`) included; zero rather than negative, and zero before any
/// session.
pub open spec fn recorded_time(now: u64, start: Option<u64>, accum: u64, pause_start: Option<u64>) -> nat {
    match start {
        None => 0,
        Some(s) => {
            let total: int = if now >= s { now - s } else { 0 };
            let paused: int = accum + match pause_start {
                Some(p) => if now >= p { now - p } else { 0 },
                None => 0,
            };
            if total >= paused { (total - paused) as nat } else { 0 }
        },
    }
}

/// `a + b`, capped at `u64::MAX`.
pub open spec fn add_capped(a: u64, b: int) -> u64 {
    if a + b > u64::MAX { u64::MAX } else { (a + b) as u64 }
}

/// Paused time after a pause that began at reading `pause_start` ends at
/// reading `now`.
pub open spec fn resumed_total(accum: u64, pause_start: Option<u64>, now: u64) -> u64 {
    match pause_start {
        Some(p) => add_capped(accum, if now >= p { now - p } else { 0 }),
        None => accum,
    }
}

/// Coordinates a recording session and tracks recording time. Readings are
/// microseconds since the manager was made.
pub struct RecorderManager {
    state: RecordingState,
    origin: std::time::Instant,
    record_start: Option<u64>,
    paused_accum: u64,
    pause_start: Option<u64>,
    video_path: Option<String>,
    audio_path: Option<String>,
    /// Monitor to capture.
    pub monitor_index: usize,
    /// Capture rate.
    pub fps: u32,
    /// Whether microphone audio is recorded.
    pub record_audio: bool,
    /// Name of the microphone device to use (None = system default).
    pub mic_device_name: Option<String>,
    /// Directory for recording files.
    pub output_dir: String,
}

impl RecorderManager {
    pub closed spec fn state_spec(self) -> RecordingState {
        self.state
    }

    pub closed spec fn start_spec(self) -> Option<u64> {
        self.record_start
    }

    pub closed spec fn accum_spec(self) -> u64 {
        self.paused_accum
    }

    pub closed spec fn pause_spec(self) -> Option<u64> {
        self.pause_start
    }

    pub closed spec fn video_spec(self) -> Option<String> {
        self.video_path
    }

    pub closed spec fn audio_spec(self) -> Option<String> {
        self.audio_path
    }

    pub closed spec fn record_audio_spec(self) -> bool {
        self.record_audio
    }

    pub closed spec fn monitor_spec(self) -> usize {
        self.monitor_index
    }

    pub closed spec fn fps_spec(self) -> u32 {
        self.fps
    }

    pub closed spec fn output_dir_spec(self) -> String {
        self.output_dir
    }

    pub closed spec fn mic_spec(self) -> Option<String> {
        self.mic_device_name
    }

    /// Idle with no session, running with a session and no pause, paused
    /// with a session and a pause.
    pub open spec fn wf(self) -> bool {
        match self.state_spec() {
            RecordingState::Idle => self.start_spec() is None && self.pause_spec() is None,
            RecordingState::Recording => self.start_spec() is Some && self.pause_spec() is None,
            RecordingState::Paused => self.start_spec() is Some && self.pause_spec() is Some,
        }
    }

    /// An idle manager writing to `output_dir`: monitor 0, 60 frames per
    /// second, audio on, the default microphone.
    pub fn new(output_dir: String) -> (m: Self)
        ensures
            m.wf(),
            m.state_spec() == RecordingState::Idle,
            m.start_spec() is None,
            m.accum_spec() == 0,
            m.pause_spec() is None,
            m.video_spec() is None,
            m.audio_spec() is None,
            m.record_audio_spec(),
            m.monitor_spec() == 0,
            m.fps_spec() == 60,
            m.output_dir_spec() == output_dir,
            m.mic_spec() is None,
    {
        RecorderManager {
            state: RecordingState::Idle,
            origin: instant_now(),
            record_start: None,
            paused_accum: 0,
            pause_start: None,
            video_path: None,
            audio_path: None,
            monitor_index: 0,
            fps: 60,
            record_audio: true,
            mic_device_name: None,
            output_dir,
        }
    }

    pub fn state(&self) -> (s: RecordingState)
        ensures
            s == self.state_spec(),
    {
        self.state
    }

    /// The current reading.
    pub fn now(&self) -> u64 {
        micros_since(&self.origin)
    }

    /// Time recorded at reading `now`.
    pub fn elapsed_at(&self, now: u64) -> (t: u64)
        ensures
            t == recorded_time(now, self.start_spec(), self.accum_spec(), self.pause_spec()),
    {
        match self.record_start {
            None => 0,
            Some(s) => {
                let total: u128 = if now >= s { (now - s) as u128 } else { 0 };
                let current: u128 = match self.pause_start {
                    Some(p) => if now >= p { (now - p) as u128 } else { 0 },
                    None => 0,
                };
                let paused: u128 = self.paused_accum as u128 + current;
                if total >= paused { (total - paused) as u64 } else { 0 }
            },
        }
    }

    /// Time recorded so far (pauses excluded); zero before any session.
    /// While paused it is the time recorded when the pause began.
    pub fn elapsed(&self) -> (t: u64)
        ensures
            self.start_spec() is None ==> t == 0,
            self.pause_spec() matches Some(p) ==> t == recorded_time(p, self.start_spec(), self.accum_spec(), self.pause_spec()),
            exists|now: u64| t == recorded_time(now, self.start_spec(), self.accum_spec(), self.pause_spec()),
    {
        let now = match self.pause_start {
            Some(p) => p,
            None => self.now(),
        };
        self.elapsed_at(now)
    }

    /// Path of the video of the current or last session.
    pub fn current_video_path(&self) -> (p: Option<String>)
        ensures
            p == self.video_spec(),
    {
        match &self.video_path {
            Some(v) => Some(v.clone()),
            None => None,
        }
    }

    /// The files and capture settings of a new session, named after the
    /// local time `now` (`screen_YYYYMMDD_HHMMSS.mp4`, and the same stamp for
    /// the audio). Fails when a session is running.
    pub fn plan_recording(&self, now: &LocalTime) -> (r: Result<SessionPlan, RecorderError>)
        requires
            now.valid(),
        ensures
            self.state_spec() != RecordingState::Idle ==> r == Err::<SessionPlan, RecorderError>(RecorderError::AlreadyRecording),
            self.state_spec() == RecordingState::Idle ==> (r matches Ok(plan) && exists|stamp: Seq<char>| {
                &&& 0 <= now.year <= 9999 ==> stamp == date_stamp(*now)
                &&& plan.video_file@ == "screen_"@ + stamp + ".mp4"@
                &&& self.record_audio_spec() ==> (plan.audio_file matches Some(a) && a@ == "audio_"@ + stamp + ".wav"@)
                &&& !self.record_audio_spec() ==> plan.audio_file is None
            } && plan.monitor_index == self.monitor_spec() && plan.fps == self.fps_spec()),
    {
        if self.state != RecordingState::Idle {
            return Err(RecorderError::AlreadyRecording);
        }
        let stamp = file_stamp(now);
        let mut video: Vec<char> = Vec::new();
        push_str(&mut video, "screen_");
        push_str(&mut video, stamp.as_str());
        push_str(&mut video, ".mp4");
        let audio_file = if self.record_audio {
            let mut audio: Vec<char> = Vec::new();
            push_str(&mut audio, "audio_");
            push_str(&mut audio, stamp.as_str());
            push_str(&mut audio, ".wav");
            Some(string_from_chars(&audio))
        } else {
            None
        };
        let plan = SessionPlan {
            video_file: string_from_chars(&video),
            audio_file,
            monitor_index: self.monitor_index,
            fps: self.fps,
        };
        assert(plan.video_file@ == "screen_"@ + stamp@ + ".mp4"@);
        Ok(plan)
    }

    /// The session has started at reading `now`, writing the given files.
    pub fn recording_started_at(&mut self, now: u64, video_path: String, audio_path: Option<String>)
        ensures
            final(self).wf(),
            final(self).state_spec() == RecordingState::Recording,
            final(self).start_spec() == Some(now),
            final(self).accum_spec() == 0,
            final(self).pause_spec() is None,
            final(self).video_spec() == Some(video_path),
            final(self).audio_spec() == audio_path,
    {
        self.video_path = Some(video_path);
        self.audio_path = audio_path;
        self.record_start = Some(now);
        self.paused_accum = 0;
        self.pause_start = None;
        self.state = RecordingState::Recording;
    }

    /// The session has started now, writing the given files.
    pub fn recording_started(&mut self, video_path: String, audio_path: Option<String>)
        ensures
            final(self).wf(),
            final(self).state_spec() == RecordingState::Recording,
            final(self).start_spec() is Some,
            final(self).accum_spec() == 0,
            final(self).pause_spec() is None,
            final(self).video_spec() == Some(video_path),
            final(self).audio_spec() == audio_path,
    {
        let now = self.now();
        self.recording_started_at(now, video_path, audio_path);
    }

    /// Pause a running session at reading `now`; anything else is left as
    /// it is.
    pub fn pause_recording_at(&mut self, now: u64)
        ensures
            old(self).wf() ==> final(self).wf(),
            old(self).state_spec() == RecordingState::Recording ==> final(self).state_spec() == RecordingState::Paused
                && final(self).pause_spec() == Some(now),
            old(self).state_spec() != RecordingState::Recording ==> *final(self) == *old(self),
            final(self).start_spec() == old(self).start_spec(),
            final(self).accum_spec() == old(self).accum_spec(),
            final(self).video_spec() == old(self).video_spec(),
            final(self).audio_spec() == old(self).audio_spec(),
    {
        if self.state != RecordingState::Recording {
            return;
        }
        self.pause_start = Some(now);
        self.state = RecordingState::Paused;
    }

    /// Pause a running session now; anything else is left as it is.
    pub fn pause_recording(&mut self)
        ensures
            old(self).wf() ==> final(self).wf(),
            old(self).state_spec() == RecordingState::Recording ==> final(self).state_spec() == RecordingState::Paused
                && final(self).pause_spec() is Some,
            old(self).state_spec() != RecordingState::Recording ==> *final(self) == *old(self),
            final(self).start_spec() == old(self).start_spec(),
            final(self).accum_spec() == old(self).accum_spec(),
            final(self).video_spec() == old(self).video_spec(),
            final(self).audio_spec() == old(self).audio_spec(),
    {
        let now = self.now();
        self.pause_recording_at(now)
    }

    /// Resume a paused session at reading `now`: the pause's length joins the
    /// paused time. Anything else is left as it is.
    pub fn resume_recording_at(&mut self, now: u64)
        ensures
            old(self).wf() ==> final(self).wf(),
            old(self).state_spec() == RecordingState::Paused ==> final(self).state_spec() == RecordingState::Recording
                && final(self).pause_spec() is None
                && final(self).accum_spec() == match old(self).pause_spec() {
                    Some(p) => add_capped(old(self).accum_spec(), if now >= p { now - p } else { 0 }),
                    None => old(self).accum_spec(),
                },
            old(self).state_spec() != RecordingState::Paused ==> *final(self) == *old(self),
            final(self).start_spec() == old(self).start_spec(),
            final(self).video_spec() == old(self).video_spec(),
            final(self).audio_spec() == old(self).audio_spec(),
    {
        if self.state != RecordingState::Paused {
            return;
        }
        self.end_pause(now);
        self.state = RecordingState::Recording;
    }

    /// Resume a paused session now: the pause, up to now, joins the paused
    /// time. Anything else is left as it is.
    pub fn resume_recording(&mut self)
        ensures
            old(self).wf() ==> final(self).wf(),
            old(self).state_spec() == RecordingState::Paused ==> final(self).state_spec() == RecordingState::Recording
                && final(self).pause_spec() is None
                && exists|now: u64| final(self).accum_spec() == #[trigger] resumed_total(old(self).accum_spec(), old(self).pause_spec(), now),
            old(self).state_spec() != RecordingState::Paused ==> *final(self) == *old(self),
            final(self).start_spec() == old(self).start_spec(),
            final(self).video_spec() == old(self).video_spec(),
            final(self).audio_spec() == old(self).audio_spec(),
    {
        let now = self.now();
        self.resume_recording_at(now);
        assert(old(self).state_spec() == RecordingState::Paused
            ==> self.accum_spec() == resumed_total(old(self).accum_spec(), old(self).pause_spec(), now));
    }

    fn end_pause(&mut self, now: u64)
        ensures
            final(self).pause_spec() is None,
            final(self).accum_spec() == match old(self).pause_spec() {
                Some(p) => add_capped(old(self).accum_spec(), if now >= p { now - p } else { 0 }),
                None => old(self).accum_spec(),
            },
            final(self).state_spec() == old(self).state_spec(),
            final(self).start_spec() == old(self).start_spec(),
            final(self).video_spec() == old(self).video_spec(),
            final(self).audio_spec() == old(self).audio_spec(),
    {
        match self.pause_start {
            Some(p) => {
                let d: u64 = if now >= p { now - p } else { 0 };
                self.paused_accum = if (self.paused_accum as u128) + (d as u128) > u64::MAX as u128 {
                    u64::MAX
                } else {
                    self.paused_accum + d
                };
            },
            None => {},
        }
        self.pause_start = None;
    }

    /// Stop the session at reading `now` and return what it recorded; `None`
    /// when idle.
    pub fn stop_recording_at(&mut self, now: u64) -> (r: Option<RecordedSession>)
        ensures
            old(self).wf() ==> final(self).wf(),
            old(self).state_spec() == RecordingState::Idle ==> r is None && *final(self) == *old(self),
            old(self).state_spec() != RecordingState::Idle ==> {
                &&& final(self).state_spec() == RecordingState::Idle
                &&& final(self).start_spec() is None
                &&& final(self).pause_spec() is None
                &&& final(self).video_spec() is None
                &&& final(self).audio_spec() is None
                &&& match old(self).video_spec() {
                    None => r is None,
                    Some(v) => r matches Some(s) && s.video_path == v && s.audio_path == old(self).audio_spec()
                        && s.duration == recorded_time(now, old(self).start_spec(), old(self).accum_spec(), old(self).pause_spec()),
                }
            },
    {
        if self.state == RecordingState::Idle {
            return None;
        }
        let duration = self.elapsed_at(now);
        self.end_pause(now);
        proof {
            assert(duration == recorded_time(now, old(self).start_spec(), old(self).accum_spec(), old(self).pause_spec()));
        }
        let video = self.video_path.take();
        let audio = self.audio_path.take();
        self.record_start = None;
        self.state = RecordingState::Idle;
        match video {
            Some(v) => Some(RecordedSession { video_path: v, audio_path: audio, duration }),
            None => None,
        }
    }

    /// Stop the session now and return what it recorded; `None` when idle.
    pub fn stop_recording(&mut self) -> (r: Option<RecordedSession>)
        ensures
            old(self).wf() ==> final(self).wf(),
            old(self).state_spec() == RecordingState::Idle ==> r is None && *final(self) == *old(self),
            final(self).state_spec() == RecordingState::Idle,
            old(self).state_spec() != RecordingState::Idle ==> {
                &&& final(self).start_spec() is None
                &&& final(self).pause_spec() is None
                &&& final(self).video_spec() is None
                &&& final(self).audio_spec() is None
                &&& match old(self).video_spec() {
                    None => r is None,
                    Some(v) => r matches Some(s) && s.video_path == v && s.audio_path == old(self).audio_spec()
                        && exists|now: u64| s.duration == recorded_time(now, old(self).start_spec(), old(self).accum_spec(), old(self).pause_spec()),
                }
            },
    {
        let now = self.now();
        self.stop_recording_at(now)
    }
}

/// While a session is paused the recorded time stands still: two readings
/// taken during the same pause give the same time.
pub proof fn lemma_recorded_time_frozen_while_paused(now1: u64, now2: u64, start: u64, accum: u64, p: u64)
    requires
        start <= p,
        p <= now1,
        p <= now2,
    ensures
        recorded_time(now1, Some(start), accum, Some(p)) == recorded_time(now2, Some(start), accum, Some(p)),
{
}

/// Time recorded never runs ahead of the time since the session started.
pub proof fn lemma_recorded_time_bounded(now: u64, start: u64, accum: u64, pause: Option<u64>)
    requires
        start <= now,
    ensures
        recorded_time(now, Some(start), accum, pause) <= now - start,
{
}

/// A session shorter than half a second is discarded.
pub open spec fn keeps_session(duration: u64) -> bool {
    duration >= 500_000
}

/// The clip a finished session adds to the timeline: its video, its whole
/// duration, labelled "Recording HH:MM:SS" with the local time `now`; none
/// when it is shorter than half a second.
pub fn session_clip(session: &RecordedSession, now: &LocalTime) -> (r: Option<Clip>)
    requires
        now.valid(),
    ensures
        !keeps_session(session.duration) ==> r is None,
        keeps_session(session.duration) ==> (r matches Some(c) && c.id == 0 && c.source_path == session.video_path
            && c.trim_start == 0 && c.trim_end == session.duration && c.timeline_start == 0
            && c.label@ == "Recording "@ + clock_text(*now)),
{
    if session.duration < 500_000 {
        return None;
    }
    let time = clock_stamp(now);
    let mut label: Vec<char> = Vec::new();
    push_str(&mut label, "Recording ");
    push_str(&mut label, time.as_str());
    let c = Clip::new(0, session.video_path.clone(), session.duration, string_from_chars(&label));
    assert(c.label@ == "Recording "@ + time@);
    Some(c)
}

} // verus!
