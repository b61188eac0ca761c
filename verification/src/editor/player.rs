//! Playback decisions: the playback state machine, the pausable playback
//! clock, the scrub request queue, and which part of which clip is decoded
//! for a timeline position.
use vstd::prelude::*;
use crate::clock::{instant_now, micros_since};
use crate::editor::clip::Clip;
use crate::editor::export::string_views;
use crate::editor::timeline::{clip_views, Timeline};
use crate::text::{
    comma_from, copy_range, dec, find_comma, padded, parse_u32, parse_u32_chars, push_dec, push_padded, push_str,
    str_chars, string_from_chars, trim_chars, trimmed,
};

verus! {

/// Playback state machine.
#[derive(Debug, Clone, Copy, PartialEq, Eq, Structural)]
pub enum PlaybackState {
    Stopped,
    Playing,
    Paused,
}

impl Default for PlaybackState {
    fn default() -> (s: Self)
        ensures
            s == PlaybackState::Stopped,
    {
        PlaybackState::Stopped
    }
}

/// Time that counts as played at reading `now`: the time since the origin
/// less the time spent paused, the current pause (from `pause_start`)
/// included; zero rather than negative.
pub open spec fn active_time(now: u64, accum: u64, pause_start: Option<u64>) -> nat {
    let current: int = match pause_start {
        Some(p) => if now >= p { now - p } else { 0 },
        None => 0,
    };
    if now >= accum + current { (now - accum - current) as nat } else { 0 }
}

/// Timeline position at reading `now` of a playback that began at
/// `start_pos` and ends at `end_pos`.
pub open spec fn position_at(c: PlaybackClock, now: u64, start_pos: u64, end_pos: u64) -> int {
    let a = active_time(now, c.accum(), c.pause_reading());
    if start_pos + a <= end_pos { start_pos + a } else { end_pos as int }
}

/// `a + b`, capped at `u64::MAX`.
pub open spec fn sat_add(a: u64, b: int) -> u64 {
    if a + b > u64::MAX { u64::MAX } else { (a + b) as u64 }
}

/// Paused time after a pause that began at reading `pause_start` ends at
/// reading `now`.
pub open spec fn resumed_accum(accum: u64, pause_start: Option<u64>, now: u64) -> u64 {
    match pause_start {
        Some(p) => sat_add(accum, if now >= p { now - p } else { 0 }),
        None => accum,
    }
}

/// The clock that paces playback: wall-clock time since the start, less the
/// time spent paused. Readings are microseconds since its origin.
pub struct PlaybackClock {
    origin: std::time::Instant,
    paused: bool,
    paused_accum: u64,
    pause_start: Option<u64>,
}

impl PlaybackClock {
    pub closed spec fn is_paused(self) -> bool {
        self.paused
    }

    /// Paused time of the pauses that have ended.
    pub closed spec fn accum(self) -> u64 {
        self.paused_accum
    }

    /// Reading at which the current pause began.
    pub closed spec fn pause_reading(self) -> Option<u64> {
        self.pause_start
    }

    /// A pause reading is kept exactly while the clock is paused.
    pub open spec fn wf(self) -> bool {
        self.is_paused() == (self.pause_reading() is Some)
    }

    /// A running clock, started now.
    pub fn new() -> (c: Self)
        ensures
            c.wf(),
            !c.is_paused(),
            c.accum() == 0,
            c.pause_reading() is None,
    {
        PlaybackClock { origin: instant_now(), paused: false, paused_accum: 0, pause_start: None }
    }

    /// The current reading: microseconds since the clock started.
    pub fn now(&self) -> u64 {
        micros_since(&self.origin)
    }

    /// The time played at reading `now`.
    pub fn active_elapsed_at(&self, now: u64) -> (t: u64)
        ensures
            t == active_time(now, self.accum(), self.pause_reading()),
    {
        let current: u64 = match self.pause_start {
            Some(p) => if now >= p { now - p } else { 0 },
            None => 0,
        };
        let used: u128 = self.paused_accum as u128 + current as u128;
        if (now as u128) >= used {
            (now as u128 - used) as u64
        } else {
            0
        }
    }

    /// The time played so far.
    pub fn active_elapsed(&self) -> (t: u64)
        ensures
            exists|now: u64| t == active_time(now, self.accum(), self.pause_reading()),
    {
        let now = self.now();
        self.active_elapsed_at(now)
    }

    /// Timeline position at reading `now` of a playback that began at
    /// `start_pos`: `start_pos` plus the time played, at most `end_pos`.
    pub fn current_position_at(&self, now: u64, start_pos: u64, end_pos: u64) -> (p: u64)
        ensures
            p == position_at(*self, now, start_pos, end_pos),
    {
        let a = self.active_elapsed_at(now);
        let pos: u128 = start_pos as u128 + a as u128;
        if pos <= end_pos as u128 { pos as u64 } else { end_pos }
    }

    /// Pause at reading `now`; no change when already paused.
    pub fn pause_at(&mut self, now: u64)
        ensures
            old(self).wf() ==> final(self).wf(),
            final(self).is_paused(),
            old(self).is_paused() ==> final(self).pause_reading() == old(self).pause_reading(),
            !old(self).is_paused() ==> final(self).pause_reading() == Some(now),
            final(self).accum() == old(self).accum(),
    {
        if !self.paused {
            self.paused = true;
            self.pause_start = Some(now);
        }
    }

    /// Resume at reading `now`: the pause's length joins the paused time. No
    /// change when running.
    pub fn resume_at(&mut self, now: u64)
        ensures
            old(self).wf() ==> final(self).wf(),
            !final(self).is_paused(),
            !old(self).is_paused() ==> final(self).accum() == old(self).accum()
                && final(self).pause_reading() == old(self).pause_reading(),
            old(self).is_paused() ==> final(self).pause_reading() is None && final(self).accum() == match old(self).pause_reading() {
                Some(p) => sat_add(old(self).accum(), if now >= p { now - p } else { 0 }),
                None => old(self).accum(),
            },
    {
        if self.paused {
            self.paused = false;
            match self.pause_start {
                Some(p) => {
                    let d = if now >= p { now - p } else { 0 };
                    self.paused_accum = if (self.paused_accum as u128) + (d as u128) > u64::MAX as u128 {
                        u64::MAX
                    } else {
                        self.paused_accum + d
                    };
                },
                None => {},
            }
            self.pause_start = None;
        }
    }

    /// Pause now; no change when already paused.
    pub fn pause(&mut self)
        ensures
            old(self).wf() ==> final(self).wf(),
            final(self).is_paused(),
            final(self).accum() == old(self).accum(),
            old(self).is_paused() ==> final(self).pause_reading() == old(self).pause_reading(),
            !old(self).is_paused() ==> final(self).pause_reading() is Some,
    {
        let now = self.now();
        self.pause_at(now);
    }

    /// Resume now: the pause's length, up to now, joins the paused time.
    pub fn resume(&mut self)
        ensures
            old(self).wf() ==> final(self).wf(),
            !final(self).is_paused(),
            !old(self).is_paused() ==> final(self).accum() == old(self).accum()
                && final(self).pause_reading() == old(self).pause_reading(),
            old(self).is_paused() ==> final(self).pause_reading() is None && exists|now: u64|
                final(self).accum() == #[trigger] resumed_accum(old(self).accum(), old(self).pause_reading(), now),
    {
        let now = self.now();
        self.resume_at(now);
        assert(old(self).is_paused() ==> self.accum() == resumed_accum(old(self).accum(), old(self).pause_reading(), now));
    }

    /// Whether, at reading `now`, a playback that began at `start_pos` has
    /// reached timeline position `timeline_pos` (and is not paused).
    pub fn reached_at(&self, now: u64, start_pos: u64, timeline_pos: u64) -> (b: bool)
        ensures
            b == (!self.is_paused() && active_time(now, self.accum(), self.pause_reading())
                >= (if timeline_pos >= start_pos { timeline_pos - start_pos } else { 0 })),
    {
        if self.paused {
            return false;
        }
        let target: u64 = if timeline_pos >= start_pos { timeline_pos - start_pos } else { 0 };
        self.active_elapsed_at(now) >= target
    }
}

/// While a clock is paused, the time played stays where it was when the
/// pause began.
pub proof fn lemma_paused_clock_stands_still(accum: u64, p: u64, now1: u64, now2: u64)
    requires
        p <= now1,
        p <= now2,
    ensures
        active_time(now1, accum, Some(p)) == active_time(now2, accum, Some(p)),
        active_time(now1, accum, Some(p)) == active_time(p, accum, None),
{
}

/// After a pause from `p` to `r`, the time played at any later reading is
/// the time it would have been without the pause, less the pause.
pub proof fn lemma_pause_excluded(accum: u64, p: u64, r: u64, now: u64)
    requires
        p <= r <= now,
        accum + (r - p) <= u64::MAX,
    ensures
        active_time(now, sat_add(accum, r - p), None)
            == (if now >= accum + (r - p) { now - accum - (r - p) } else { 0 }),
{
}

/// Playback speed of a segment at normal pace, in thousandths.
pub const NORMAL_SPEED: u32 = 1000;

/// One clip as playback sees it. Times are microseconds.
pub struct PlaySegment {
    pub source_path: String,
    /// Where the segment starts in the source.
    pub trim_start: u64,
    /// How much of the source the segment plays.
    pub trim_duration: u64,
    /// Playback speed in thousandths: 1000 is normal pace, 2000 twice as
    /// fast; the source advances `speed / 1000` times as fast as the timeline.
    pub speed: u32,
    pub timeline_start: u64,
    pub timeline_duration: u64,
}

/// Source time that `offset` of timeline time covers at `speed`
/// thousandths, in whole microseconds.
pub open spec fn source_offset(offset: nat, speed: u32) -> nat {
    offset * (speed as nat) / 1000
}

impl Clone for PlaySegment {
    fn clone(&self) -> (s: Self)
        ensures
            s == *self,
    {
        PlaySegment {
            source_path: self.source_path.clone(),
            trim_start: self.trim_start,
            trim_duration: self.trim_duration,
            speed: self.speed,
            timeline_start: self.timeline_start,
            timeline_duration: self.timeline_duration,
        }
    }
}

/// Where a segment ends on the timeline.
pub open spec fn segment_end(s: PlaySegment) -> nat {
    (s.timeline_start + s.timeline_duration) as nat
}

/// The segment ends fit the time type.
pub open spec fn segments_fit(segs: Seq<PlaySegment>) -> bool {
    forall|i: int| 0 <= i < segs.len() ==> #[trigger] segment_end(segs[i]) <= u64::MAX
}

/// End of playback: the latest segment end, or zero.
pub open spec fn playback_end_of(segs: Seq<PlaySegment>) -> nat
    decreases segs.len(),
{
    if segs.len() == 0 {
        0
    } else {
        let a = playback_end_of(segs.drop_last());
        let b = segment_end(segs.last());
        if a >= b { a } else { b }
    }
}

/// Playback ends where the latest segment ends: no segment ends after it,
/// some segment ends exactly there, and with no segment it is zero. Gaps
/// between segments do not shorten it.
pub proof fn lemma_playback_end_is_latest_end(segs: Seq<PlaySegment>)
    ensures
        forall|i: int| 0 <= i < segs.len()
            ==> #[trigger] segs[i].timeline_start + segs[i].timeline_duration <= playback_end_of(segs),
        segs.len() == 0 ==> playback_end_of(segs) == 0,
        segs.len() > 0 ==> exists|i: int| 0 <= i < segs.len()
            && #[trigger] segs[i].timeline_start + segs[i].timeline_duration == playback_end_of(segs),
    decreases segs.len(),
{
    if segs.len() > 0 {
        let t = segs.drop_last();
        lemma_playback_end_is_latest_end(t);
        let last = segs.len() - 1;
        assert forall|i: int| 0 <= i < segs.len()
            implies #[trigger] segs[i].timeline_start + segs[i].timeline_duration <= playback_end_of(segs) by {
            if i < t.len() {
                assert(t[i] == segs[i]);
                assert(t[i].timeline_start + t[i].timeline_duration <= playback_end_of(t));
            }
        }
        if t.len() > 0 && playback_end_of(t) >= segment_end(segs.last()) {
            let k = choose|k: int| 0 <= k < t.len()
                && #[trigger] t[k].timeline_start + t[k].timeline_duration == playback_end_of(t);
            assert(t[k] == segs[k]);
            assert(segs[k].timeline_start + segs[k].timeline_duration == playback_end_of(segs));
        } else {
            assert(segs[last].timeline_start + segs[last].timeline_duration == playback_end_of(segs));
        }
    }
}

/// The segment of each clip: its source, trim start, duration, and place.
pub fn play_segments(timeline: &Timeline) -> (r: Vec<PlaySegment>)
    ensures
        r@.len() == timeline.clip_seq().len(),
        forall|i: int| 0 <= i < r@.len() ==> {
            let c = #[trigger] timeline.clip_seq()[i];
            &&& r@[i].source_path@ == c.source_path
            &&& r@[i].trim_start == c.trim_start
            &&& r@[i].trim_duration == c.span()
            &&& r@[i].speed == NORMAL_SPEED
            &&& r@[i].timeline_start == c.timeline_start
            &&& r@[i].timeline_duration == c.span()
        },
{
    let clips = timeline.clips();
    let ghost cs = timeline.clip_seq();
    let n = clips.len();
    let mut out: Vec<PlaySegment> = Vec::new();
    let mut i: usize = 0;
    while i < n
        invariant
            n == cs.len(),
            cs == clip_views(clips@),
            i <= n,
            out@.len() == i,
            forall|k: int| 0 <= k < i ==> {
                let c = #[trigger] cs[k];
                &&& out@[k].source_path@ == c.source_path
                &&& out@[k].trim_start == c.trim_start
                &&& out@[k].trim_duration == c.span()
                &&& out@[k].speed == NORMAL_SPEED
                &&& out@[k].timeline_start == c.timeline_start
                &&& out@[k].timeline_duration == c.span()
            },
        decreases n - i,
    {
        let c: &Clip = &clips[i];
        let d = c.duration();
        out.push(PlaySegment {
            source_path: c.source_path.clone(),
            trim_start: c.trim_start,
            trim_duration: d,
            speed: NORMAL_SPEED,
            timeline_start: c.timeline_start,
            timeline_duration: d,
        });
        i = i + 1;
    }
    out
}

/// End of playback: the latest segment end.
pub fn playback_end(segs: &Vec<PlaySegment>) -> (e: u64)
    requires
        segments_fit(segs@),
    ensures
        e == playback_end_of(segs@),
{
    let n = segs.len();
    let mut acc: u64 = 0;
    let mut i: usize = 0;
    while i < n
        invariant
            n == segs@.len(),
            segments_fit(segs@),
            i <= n,
            acc == playback_end_of(segs@.take(i as int)),
        decreases n - i,
    {
        assert(segment_end(segs@[i as int]) <= u64::MAX);
        let e = segs[i].timeline_start + segs[i].timeline_duration;
        proof {
            assert(segs@.take(i as int + 1).drop_last() =~= segs@.take(i as int));
        }
        if e > acc {
            acc = e;
        }
        i = i + 1;
    }
    assert(segs@.take(n as int) =~= segs@);
    acc
}

/// Whether segment `s` shows timeline position `pos`: the position lies in
/// the segment and the source time it reaches at the segment's speed lies
/// within the part of the source the segment plays.
pub open spec fn shows(s: PlaySegment, pos: u64) -> bool {
    s.timeline_start <= pos && pos < segment_end(s)
        && source_offset((pos - s.timeline_start) as nat, s.speed) < s.trim_duration
}

/// Source time that `offset` of timeline time covers at `speed`
/// thousandths.
fn source_offset_of(offset: u64, speed: u32) -> (r: u128)
    ensures
        r == source_offset(offset as nat, speed),
{
    proof {
        assert((offset as int) * (speed as int) <= 0x1_0000_0000_0000_0000 * 0x1_0000_0000) by (nonlinear_arith)
            requires 0 <= offset < 0x1_0000_0000_0000_0000, 0 <= speed < 0x1_0000_0000;
    }
    (offset as u128) * (speed as u128) / 1000
}

/// The first segment that shows timeline position `pos`, and the source
/// position of that frame.
pub fn scrub_target(segs: &Vec<PlaySegment>, pos: u64) -> (r: Option<(usize, u64)>)
    requires
        segments_fit(segs@),
        forall|i: int| 0 <= i < segs@.len() ==> #[trigger] segs@[i].trim_start + segs@[i].trim_duration <= u64::MAX,
    ensures
        match r {
            Some((i, seek)) => {
                &&& i < segs@.len()
                &&& shows(segs@[i as int], pos)
                &&& forall|j: int| 0 <= j < i ==> !shows(#[trigger] segs@[j], pos)
                &&& seek == segs@[i as int].trim_start
                    + source_offset((pos - segs@[i as int].timeline_start) as nat, segs@[i as int].speed)
            },
            None => forall|j: int| 0 <= j < segs@.len() ==> !shows(#[trigger] segs@[j], pos),
        },
{
    let n = segs.len();
    let mut i: usize = 0;
    while i < n
        invariant
            n == segs@.len(),
            segments_fit(segs@),
            forall|k: int| 0 <= k < segs@.len() ==> #[trigger] segs@[k].trim_start + segs@[k].trim_duration <= u64::MAX,
            i <= n,
            forall|j: int| 0 <= j < i ==> !shows(#[trigger] segs@[j], pos),
        decreases n - i,
    {
        let s = &segs[i];
        assert(segment_end(segs@[i as int]) <= u64::MAX);
        assert(segs@[i as int].trim_start + segs@[i as int].trim_duration <= u64::MAX);
        let end = s.timeline_start + s.timeline_duration;
        if pos >= s.timeline_start && pos < end {
            let src = source_offset_of(pos - s.timeline_start, s.speed);
            if src < s.trim_duration as u128 {
                return Some((i, s.trim_start + src as u64));
            }
        }
        i = i + 1;
    }
    None
}

/// What to decode of a segment for a playback that starts at `start_pos`.
pub struct DecodeWindow {
    /// Source position to seek to.
    pub seek: u64,
    /// Source time left to decode.
    pub remaining: u64,
    /// Timeline position of the first decoded frame.
    pub timeline_pos: u64,
    /// Timeline position where the segment ends.
    pub segment_end: u64,
    /// Playback speed in thousandths.
    pub speed: u32,
}

/// The part of segment `s` that a playback from `start_pos` decodes: none
/// when the segment ends by `start_pos` or nothing of its source is left;
/// otherwise from the offset of `start_pos` into the segment (zero when the
/// segment starts later), which covers `source_offset` of the source at the
/// segment's speed: the seek, the source left, the timeline position of the
/// first frame and the end of the segment.
pub open spec fn decode_window_of(s: PlaySegment, start_pos: u64) -> Option<(nat, nat, nat, nat)> {
    let end = segment_end(s);
    if end <= start_pos {
        None
    } else {
        let offset: nat = if start_pos > s.timeline_start { (start_pos - s.timeline_start) as nat } else { 0 };
        let src = source_offset(offset, s.speed);
        if s.trim_duration <= src {
            None
        } else {
            Some(((s.trim_start + src) as nat, (s.trim_duration - src) as nat, (s.timeline_start + offset) as nat, end))
        }
    }
}

/// The part of a segment that a playback from `start_pos` decodes.
pub fn decode_window(s: &PlaySegment, start_pos: u64) -> (r: Option<DecodeWindow>)
    requires
        segment_end(*s) <= u64::MAX,
        s.trim_start + s.trim_duration <= u64::MAX,
    ensures
        match decode_window_of(*s, start_pos) {
            Some((seek, remaining, pos, end)) => r matches Some(w) && w.seek == seek
                && w.remaining == remaining && w.timeline_pos == pos && w.segment_end == end
                && w.speed == s.speed,
            None => r is None,
        },
{
    let end = s.timeline_start + s.timeline_duration;
    if end <= start_pos {
        return None;
    }
    let offset: u64 = if start_pos > s.timeline_start { start_pos - s.timeline_start } else { 0 };
    let src = source_offset_of(offset, s.speed);
    if s.trim_duration as u128 <= src {
        return None;
    }
    let src = src as u64;
    Some(DecodeWindow {
        seek: s.trim_start + src,
        remaining: s.trim_duration - src,
        timeline_pos: s.timeline_start + offset,
        segment_end: end,
        speed: s.speed,
    })
}

/// A time in microseconds as seconds with exactly six decimals
/// ("12.500000").
pub open spec fn secs6(us: u64) -> Seq<char> {
    dec((us / 1_000_000) as nat) + seq!['.'] + padded((us % 1_000_000) as nat, 6)
}

/// The scale filter to `width` by `height` with the given scaling flags.
pub open spec fn scale_filter(width: u32, height: u32, flags: Seq<char>) -> Seq<char> {
    "scale="@ + dec(width as nat) + seq![':'] + dec(height as nat) + ":flags="@ + flags
}

/// The decode rate `fps / (speed / 1000)` frames per second with four
/// decimals, rounded half up; "inf" at speed zero.
pub open spec fn decode_rate(fps: u32, speed: u32) -> Seq<char> {
    if speed == 0 {
        "inf"@
    } else {
        let q = ((fps as nat) * 20_000_000 + (speed as nat)) / (2 * (speed as nat));
        dec(q / 10_000) + seq!['.'] + padded(q % 10_000, 4)
    }
}

/// The ffmpeg arguments that decode `remaining` of `source` from `seek`,
/// scaled, as raw RGBA frames at `fps / speed` frames per second (`speed` in
/// thousandths) on standard output: at speed S every S-th source frame is
/// kept, which plays the segment S times as fast.
pub open spec fn decode_args_of(seek: u64, remaining: u64, source: Seq<char>, width: u32, height: u32, fps: u32, speed: u32) -> Seq<Seq<char>> {
    seq![
        "-ss"@, secs6(seek),
        "-t"@, secs6(remaining),
        "-i"@, source,
        "-vf"@, scale_filter(width, height, "bilinear"@),
        "-f"@, "rawvideo"@,
        "-pix_fmt"@, "rgba"@,
        "-r"@, decode_rate(fps, speed),
        "-v"@, "quiet"@,
        "pipe:1"@,
    ]
}

/// The ffmpeg arguments that decode the one frame of `source` at `seek`,
/// scaled, as raw RGBA on standard output.
pub open spec fn scrub_args_of(seek: u64, source: Seq<char>, width: u32, height: u32) -> Seq<Seq<char>> {
    seq![
        "-accurate_seek"@, "-ss"@, secs6(seek),
        "-i"@, source,
        "-frames:v"@, "1"@,
        "-vf"@, scale_filter(width, height, "fast_bilinear"@),
        "-f"@, "rawvideo"@,
        "-pix_fmt"@, "rgba"@,
        "-v"@, "quiet"@,
        "pipe:1"@,
    ]
}

fn secs6_text(us: u64) -> (r: String)
    ensures
        r@ == secs6(us),
{
    let mut v: Vec<char> = Vec::new();
    push_dec(&mut v, us / 1_000_000);
    v.push('.');
    push_padded(&mut v, us % 1_000_000, 6);
    string_from_chars(&v)
}

fn scale_text(width: u32, height: u32, flags: &str) -> (r: String)
    ensures
        r@ == scale_filter(width, height, flags@),
{
    let mut v: Vec<char> = Vec::new();
    push_str(&mut v, "scale=");
    push_dec(&mut v, width as u64);
    v.push(':');
    push_dec(&mut v, height as u64);
    push_str(&mut v, ":flags=");
    push_str(&mut v, flags);
    string_from_chars(&v)
}

fn decode_rate_text(fps: u32, speed: u32) -> (r: String)
    ensures
        r@ == decode_rate(fps, speed),
{
    if speed == 0 {
        return String::from_str("inf");
    }
    let num: u128 = (fps as u128) * 20_000_000 + (speed as u128);
    let den: u128 = 2 * (speed as u128);
    let q: u128 = num / den;
    proof {
        assert(q <= num) by (nonlinear_arith)
            requires q == num / den, den >= 2, num >= 0;
    }
    let q64 = q as u64;
    let mut v: Vec<char> = Vec::new();
    push_dec(&mut v, q64 / 10_000);
    v.push('.');
    push_padded(&mut v, q64 % 10_000, 4);
    string_from_chars(&v)
}

/// The ffmpeg arguments that decode a playback window of `source`.
pub fn decode_args(window: &DecodeWindow, source: &str, width: u32, height: u32, fps: u32) -> (r: Vec<String>)
    ensures
        string_views(r@) == decode_args_of(window.seek, window.remaining, source@, width, height, fps, window.speed),
{
    let rate = decode_rate_text(fps, window.speed);
    let mut r: Vec<String> = Vec::new();
    r.push(String::from_str("-ss"));
    r.push(secs6_text(window.seek));
    r.push(String::from_str("-t"));
    r.push(secs6_text(window.remaining));
    r.push(String::from_str("-i"));
    r.push(String::from_str(source));
    r.push(String::from_str("-vf"));
    r.push(scale_text(width, height, "bilinear"));
    r.push(String::from_str("-f"));
    r.push(String::from_str("rawvideo"));
    r.push(String::from_str("-pix_fmt"));
    r.push(String::from_str("rgba"));
    r.push(String::from_str("-r"));
    r.push(rate);
    r.push(String::from_str("-v"));
    r.push(String::from_str("quiet"));
    r.push(String::from_str("pipe:1"));
    assert(string_views(r@) =~= decode_args_of(window.seek, window.remaining, source@, width, height, fps, window.speed));
    r
}

/// The ffmpeg arguments that decode the single frame of `source` at `seek`.
pub fn scrub_args(seek: u64, source: &str, width: u32, height: u32) -> (r: Vec<String>)
    ensures
        string_views(r@) == scrub_args_of(seek, source@, width, height),
{
    let mut r: Vec<String> = Vec::new();
    r.push(String::from_str("-accurate_seek"));
    r.push(String::from_str("-ss"));
    r.push(secs6_text(seek));
    r.push(String::from_str("-i"));
    r.push(String::from_str(source));
    r.push(String::from_str("-frames:v"));
    r.push(String::from_str("1"));
    r.push(String::from_str("-vf"));
    r.push(scale_text(width, height, "fast_bilinear"));
    r.push(String::from_str("-f"));
    r.push(String::from_str("rawvideo"));
    r.push(String::from_str("-pix_fmt"));
    r.push(String::from_str("rgba"));
    r.push(String::from_str("-v"));
    r.push(String::from_str("quiet"));
    r.push(String::from_str("pipe:1"));
    assert(string_views(r@) =~= scrub_args_of(seek, source@, width, height));
    r
}

/// Timeline position of frame `k` of a decode whose first frame stands at
/// `first`, at `fps` frames per second (at least one); none past the time
/// type.
pub fn frame_position(first: u64, k: u64, fps: u32) -> (r: Option<u64>)
    ensures
        ({
            let rate: int = if fps >= 1 { fps as int } else { 1 };
            let p = first + (k * 1_000_000) / rate;
            match r {
                Some(x) => x == p,
                None => p > u64::MAX,
            }
        }),
{
    let rate: u128 = if fps >= 1 { fps as u128 } else { 1 };
    proof {
        assert((k as int) * 1_000_000 <= 0x1_0000_0000_0000_0000 * 1_000_000) by (nonlinear_arith)
            requires 0 <= k < 0x1_0000_0000_0000_0000;
    }
    let p: u128 = (first as u128) + ((k as u128) * 1_000_000) / rate;
    if p > u64::MAX as u128 { None } else { Some(p as u64) }
}

/// The width and height that ffprobe printed as `width,height`: the text is
/// trimmed and split at commas, and the first two fields are read as `u32`;
/// none when there are fewer than two fields or either does not read.
pub open spec fn resolution_of(text: Seq<char>) -> Option<(u32, u32)> {
    let t = trimmed(text);
    let c1 = comma_from(t, 0);
    if c1 >= t.len() {
        None
    } else {
        let c2 = comma_from(t, c1 + 1);
        match (parse_u32(t.subrange(0, c1)), parse_u32(t.subrange(c1 + 1, c2))) {
            (Some(w), Some(h)) => Some((w as u32, h as u32)),
            _ => None,
        }
    }
}

/// Reads the `width,height` that ffprobe prints for a video stream.
pub fn parse_resolution(text: &str) -> (r: Option<(u32, u32)>)
    ensures
        r == resolution_of(text@),
{
    let raw = str_chars(text);
    let t = trim_chars(&raw);
    let n = t.len();
    let c1 = find_comma(&t, 0);
    if c1 >= n {
        return None;
    }
    let c2 = find_comma(&t, c1 + 1);
    let first = copy_range(&t, 0, c1);
    let second = copy_range(&t, c1 + 1, c2);
    match (parse_u32_chars(&first), parse_u32_chars(&second)) {
        (Some(w), Some(h)) => Some((w, h)),
        _ => None,
    }
}

/// The ffprobe arguments that print `entries` of the first video stream of
/// `source` as bare comma-separated values.
pub open spec fn probe_args_of(entries: Seq<char>, source: Seq<char>) -> Seq<Seq<char>> {
    seq![
        "-v"@, "error"@,
        "-select_streams"@, "v:0"@,
        "-show_entries"@, "stream="@ + entries,
        "-of"@, "csv=p=0"@,
        source,
    ]
}

fn probe_args(entries: &str, source: &str) -> (r: Vec<String>)
    ensures
        string_views(r@) == probe_args_of(entries@, source@),
{
    let mut show: Vec<char> = Vec::new();
    push_str(&mut show, "stream=");
    push_str(&mut show, entries);
    let mut r: Vec<String> = Vec::new();
    r.push(String::from_str("-v"));
    r.push(String::from_str("error"));
    r.push(String::from_str("-select_streams"));
    r.push(String::from_str("v:0"));
    r.push(String::from_str("-show_entries"));
    r.push(string_from_chars(&show));
    r.push(String::from_str("-of"));
    r.push(String::from_str("csv=p=0"));
    r.push(String::from_str(source));
    assert(string_views(r@) =~= probe_args_of(entries@, source@));
    r
}

/// The ffprobe arguments that print the width and height of a video.
pub fn resolution_probe_args(source: &str) -> (r: Vec<String>)
    ensures
        string_views(r@) == probe_args_of("width,height"@, source@),
{
    probe_args("width,height", source)
}

/// The ffprobe arguments that print the duration of a video.
pub fn duration_probe_args(source: &str) -> (r: Vec<String>)
    ensures
        string_views(r@) == probe_args_of("duration"@, source@),
{
    probe_args("duration", source)
}

/// While playback is paused its position stands still: two readings taken
/// during the pause give the same timeline position.
pub proof fn lemma_paused_playback_stands_still(p: PlaybackControl, now1: u64, now2: u64)
    requires
        p.wf(),
        p.state_spec() == PlaybackState::Paused,
        p.clock_spec().pause_reading() matches Some(r) && r <= now1 && r <= now2,
    ensures
        position_at(p.clock_spec(), now1, p.start_spec(), p.end_spec())
            == position_at(p.clock_spec(), now2, p.start_spec(), p.end_spec()),
{
    let c = p.clock_spec();
    let r = c.pause_reading()->0;
    lemma_paused_clock_stands_still(c.accum(), r, now1, now2);
}

/// A single-frame decode asked for while scrubbing.
pub struct ScrubRequest {
    pub segments: Vec<PlaySegment>,
    pub position: u64,
    pub width: u32,
    pub height: u32,
}

/// The decisions of the video player: playback state, the positions that
/// drive the playhead, and the queue of scrub decodes (at most one in
/// flight, and the latest request waiting).
pub struct PlaybackControl {
    state: PlaybackState,
    clock: Option<PlaybackClock>,
    play_start_position: u64,
    end_position: u64,
    last_frame_pos: Option<u64>,
    scrub_busy: bool,
    scrub_pending: Option<ScrubRequest>,
}

impl PlaybackControl {
    pub closed spec fn state_spec(self) -> PlaybackState {
        self.state
    }

    pub closed spec fn start_spec(self) -> u64 {
        self.play_start_position
    }

    pub closed spec fn end_spec(self) -> u64 {
        self.end_position
    }

    pub closed spec fn last_frame_spec(self) -> Option<u64> {
        self.last_frame_pos
    }

    pub closed spec fn busy_spec(self) -> bool {
        self.scrub_busy
    }

    pub closed spec fn pending_spec(self) -> Option<ScrubRequest> {
        self.scrub_pending
    }

    pub closed spec fn has_clock(self) -> bool {
        self.clock is Some
    }

    pub closed spec fn clock_spec(self) -> PlaybackClock {
        self.clock.unwrap()
    }

    /// A clock runs exactly while playback is not stopped, and it is paused
    /// exactly while playback is.
    pub open spec fn wf(self) -> bool {
        &&& (self.state_spec() == PlaybackState::Stopped) == !self.has_clock()
        &&& self.has_clock() ==> self.clock_spec().wf()
            && self.clock_spec().is_paused() == (self.state_spec() == PlaybackState::Paused)
    }

    /// Stopped, nothing queued.
    pub fn new() -> (p: Self)
        ensures
            p.wf(),
            p.state_spec() == PlaybackState::Stopped,
            !p.has_clock(),
            p.start_spec() == 0,
            p.end_spec() == 0,
            p.last_frame_spec() is None,
            !p.busy_spec(),
            p.pending_spec() is None,
    {
        PlaybackControl {
            state: PlaybackState::Stopped,
            clock: None,
            play_start_position: 0,
            end_position: 0,
            last_frame_pos: None,
            scrub_busy: false,
            scrub_pending: None,
        }
    }

    pub fn state(&self) -> (s: PlaybackState)
        ensures
            s == self.state_spec(),
    {
        self.state
    }

    /// Stop playback.
    pub fn stop(&mut self)
        ensures
            final(self).wf(),
            final(self).state_spec() == PlaybackState::Stopped,
            !final(self).has_clock(),
            final(self).start_spec() == old(self).start_spec(),
            final(self).end_spec() == old(self).end_spec(),
            final(self).last_frame_spec() == old(self).last_frame_spec(),
            final(self).busy_spec() == old(self).busy_spec(),
            final(self).pending_spec() == old(self).pending_spec(),
    {
        self.state = PlaybackState::Stopped;
        self.clock = None;
    }

    /// Start playback of `segments` from `start_pos`, after stopping any
    /// playback. Returns `false`, and stays stopped, when there is nothing to
    /// play or the frame size is zero.
    pub fn begin(&mut self, segments: &Vec<PlaySegment>, start_pos: u64, frame_width: u32, frame_height: u32) -> (started: bool)
        requires
            segments@.len() > 0 && frame_width > 0 && frame_height > 0 ==> segments_fit(segments@),
        ensures
            final(self).wf(),
            started == (segments@.len() > 0 && frame_width > 0 && frame_height > 0),
            started ==> final(self).state_spec() == PlaybackState::Playing && final(self).has_clock()
                && final(self).start_spec() == start_pos && final(self).end_spec() == playback_end_of(segments@)
                && final(self).last_frame_spec() is None,
            !started ==> final(self).state_spec() == PlaybackState::Stopped && !final(self).has_clock()
                && final(self).start_spec() == old(self).start_spec() && final(self).end_spec() == old(self).end_spec()
                && final(self).last_frame_spec() == old(self).last_frame_spec(),
            final(self).busy_spec() == old(self).busy_spec(),
            final(self).pending_spec() == old(self).pending_spec(),
    {
        self.stop();
        if segments.len() == 0 || frame_width == 0 || frame_height == 0 {
            return false;
        }
        self.end_position = playback_end(segments);
        self.play_start_position = start_pos;
        self.last_frame_pos = None;
        self.clock = Some(PlaybackClock::new());
        self.state = PlaybackState::Playing;
        true
    }

    /// Current timeline position, from the playback clock. While paused it
    /// is the position reached when the pause began.
    pub fn current_position(&self) -> (p: u64)
        ensures
            !self.has_clock() ==> p == self.start_spec(),
            self.has_clock() ==> exists|now: u64|
                p == position_at(self.clock_spec(), now, self.start_spec(), self.end_spec()),
            self.has_clock() && self.clock_spec().pause_reading() is Some ==> p == position_at(
                self.clock_spec(), self.clock_spec().pause_reading()->0, self.start_spec(), self.end_spec()),
    {
        match &self.clock {
            Some(c) => {
                let now = match c.pause_start {
                    Some(q) => q,
                    None => c.now(),
                };
                let p = c.current_position_at(now, self.play_start_position, self.end_position);
                assert(p == position_at(self.clock_spec(), now, self.start_spec(), self.end_spec()));
                p
            },
            None => self.play_start_position,
        }
    }

    /// Whether the playback clock has reached timeline position `pos`: a
    /// decoded frame for `pos` is due. Never while paused or stopped.
    pub fn has_reached(&self, pos: u64) -> (b: bool)
        ensures
            !self.has_clock() ==> !b,
            self.has_clock() ==> exists|now: u64| b == (!self.clock_spec().is_paused()
                && active_time(now, self.clock_spec().accum(), self.clock_spec().pause_reading())
                    >= (if pos >= self.start_spec() { pos - self.start_spec() } else { 0 })),
    {
        match &self.clock {
            Some(c) => {
                let now = c.now();
                let r = c.reached_at(now, self.play_start_position, pos);
                assert(r == (!self.clock_spec().is_paused()
                    && active_time(now, self.clock_spec().accum(), self.clock_spec().pause_reading())
                        >= (if pos >= self.start_spec() { pos - self.start_spec() } else { 0 })));
                r
            },
            None => false,
        }
    }

    /// Record that a decoded frame for timeline position `pos` was shown.
    pub fn frame_shown(&mut self, pos: u64)
        ensures
            old(self).wf() ==> final(self).wf(),
            final(self).last_frame_spec() == Some(pos),
            final(self).state_spec() == old(self).state_spec(),
            final(self).has_clock() == old(self).has_clock(),
            final(self).clock_spec() == old(self).clock_spec(),
            final(self).start_spec() == old(self).start_spec(),
            final(self).end_spec() == old(self).end_spec(),
    {
        self.last_frame_pos = Some(pos);
    }

    /// Timeline position of the most recently shown frame.
    pub fn last_frame_pos(&self) -> (p: Option<u64>)
        ensures
            p == self.last_frame_spec(),
    {
        self.last_frame_pos
    }

    /// Playback has reached the end: playing, and the last frame shown lies
    /// within 0.1 s of the end (no frame counts as position zero).
    pub fn is_finished(&self) -> (b: bool)
        ensures
            b == (self.state_spec() == PlaybackState::Playing && match self.last_frame_spec() {
                Some(p) => p + 100_000 >= self.end_spec(),
                None => 100_000 >= self.end_spec(),
            }),
    {
        if self.state != PlaybackState::Playing {
            return false;
        }
        let last: u64 = match self.last_frame_pos {
            Some(p) => p,
            None => 0,
        };
        (last as u128) + 100_000 >= self.end_position as u128
    }

    /// Pause a running playback. Returns whether it paused.
    pub fn pause(&mut self) -> (paused: bool)
        ensures
            old(self).wf() ==> final(self).wf(),
            paused == (old(self).state_spec() == PlaybackState::Playing),
            final(self).state_spec() == (if paused { PlaybackState::Paused } else { old(self).state_spec() }),
            !paused ==> *final(self) == *old(self),
            final(self).has_clock() == old(self).has_clock(),
            paused && final(self).has_clock() ==> {
                &&& final(self).clock_spec().is_paused()
                &&& final(self).clock_spec().accum() == old(self).clock_spec().accum()
                &&& old(self).clock_spec().is_paused() ==> final(self).clock_spec().pause_reading()
                    == old(self).clock_spec().pause_reading()
                &&& !old(self).clock_spec().is_paused() ==> final(self).clock_spec().pause_reading() is Some
            },
            final(self).start_spec() == old(self).start_spec(),
            final(self).end_spec() == old(self).end_spec(),
            final(self).last_frame_spec() == old(self).last_frame_spec(),
            final(self).busy_spec() == old(self).busy_spec(),
            final(self).pending_spec() == old(self).pending_spec(),
    {
        if self.state == PlaybackState::Playing {
            match &mut self.clock {
                Some(c) => c.pause(),
                None => {},
            }
            self.state = PlaybackState::Paused;
            true
        } else {
            false
        }
    }

    /// Resume a paused playback. Returns whether it resumed.
    pub fn resume(&mut self) -> (resumed: bool)
        ensures
            old(self).wf() ==> final(self).wf(),
            resumed == (old(self).state_spec() == PlaybackState::Paused),
            final(self).state_spec() == (if resumed { PlaybackState::Playing } else { old(self).state_spec() }),
            !resumed ==> *final(self) == *old(self),
            final(self).has_clock() == old(self).has_clock(),
            resumed && final(self).has_clock() ==> {
                &&& !final(self).clock_spec().is_paused()
                &&& old(self).clock_spec().is_paused() ==> final(self).clock_spec().pause_reading() is None
                    && exists|now: u64| final(self).clock_spec().accum()
                        == #[trigger] resumed_accum(old(self).clock_spec().accum(), old(self).clock_spec().pause_reading(), now)
                &&& !old(self).clock_spec().is_paused() ==> final(self).clock_spec().accum() == old(self).clock_spec().accum()
                    && final(self).clock_spec().pause_reading() == old(self).clock_spec().pause_reading()
            },
            final(self).start_spec() == old(self).start_spec(),
            final(self).end_spec() == old(self).end_spec(),
            final(self).last_frame_spec() == old(self).last_frame_spec(),
            final(self).busy_spec() == old(self).busy_spec(),
            final(self).pending_spec() == old(self).pending_spec(),
    {
        if self.state == PlaybackState::Paused {
            match &mut self.clock {
                Some(c) => c.resume(),
                None => {},
            }
            self.state = PlaybackState::Playing;
            true
        } else {
            false
        }
    }

    /// A scrub decode is in flight or waiting.
    pub fn is_scrub_busy(&self) -> (b: bool)
        ensures
            b == (self.busy_spec() || self.pending_spec() is Some),
    {
        self.scrub_busy || self.scrub_pending.is_some()
    }

    /// A scrub frame is asked for. `decode_done` tells whether the decode in
    /// flight, if any, has ended. Returns the request to start now; while a
    /// decode is in flight the request waits instead, replacing any older
    /// waiting one. Requests with no segment or a zero size are ignored.
    pub fn request_scrub(&mut self, req: ScrubRequest, decode_done: bool) -> (start: Option<ScrubRequest>)
        ensures
            final(self).has_clock() == old(self).has_clock(),
            final(self).clock_spec() == old(self).clock_spec(),
            final(self).last_frame_spec() == old(self).last_frame_spec(),
            old(self).wf() ==> final(self).wf(),
            req.segments@.len() == 0 || req.width == 0 || req.height == 0 ==> start is None
                && *final(self) == *old(self),
            req.segments@.len() > 0 && req.width > 0 && req.height > 0 ==> {
                if old(self).busy_spec() && !decode_done {
                    &&& start is None
                    &&& final(self).busy_spec()
                    &&& final(self).pending_spec() == Some(req)
                } else {
                    &&& start == Some(req)
                    &&& final(self).busy_spec()
                    &&& final(self).pending_spec() == old(self).pending_spec()
                }
            },
            final(self).state_spec() == old(self).state_spec(),
            final(self).start_spec() == old(self).start_spec(),
            final(self).end_spec() == old(self).end_spec(),
    {
        if req.segments.len() == 0 || req.width == 0 || req.height == 0 {
            return None;
        }
        if self.scrub_busy && decode_done {
            self.scrub_busy = false;
        }
        if self.scrub_busy {
            self.scrub_pending = Some(req);
            None
        } else {
            self.scrub_busy = true;
            Some(req)
        }
    }

    /// Polls the scrub decode: `frame_arrived` tells whether its frame came,
    /// `decode_done` whether the decode has ended. When the decode is over,
    /// the waiting request, if any, is returned to start now.
    pub fn poll_scrub(&mut self, frame_arrived: bool, decode_done: bool) -> (start: Option<ScrubRequest>)
        ensures
            final(self).has_clock() == old(self).has_clock(),
            final(self).clock_spec() == old(self).clock_spec(),
            final(self).last_frame_spec() == old(self).last_frame_spec(),
            old(self).wf() ==> final(self).wf(),
            (frame_arrived || !old(self).busy_spec() || decode_done) ==> {
                &&& start == old(self).pending_spec()
                &&& final(self).pending_spec() is None
                &&& final(self).busy_spec() == (start is Some)
            },
            !(frame_arrived || !old(self).busy_spec() || decode_done) ==> {
                &&& start is None
                &&& final(self).busy_spec()
                &&& final(self).pending_spec() == old(self).pending_spec()
            },
            final(self).state_spec() == old(self).state_spec(),
            final(self).start_spec() == old(self).start_spec(),
            final(self).end_spec() == old(self).end_spec(),
    {
        if frame_arrived || decode_done {
            self.scrub_busy = false;
        }
        if !self.scrub_busy {
            let next = self.scrub_pending.take();
            self.scrub_busy = next.is_some();
            next
        } else {
            None
        }
    }
}

} // verus!
